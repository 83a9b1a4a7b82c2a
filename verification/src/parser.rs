//! Making sense of tokens: the expression tree, and the parser that builds it
//! as the grammar says.

use vstd::prelude::*;
use crate::grammar::{
    abs_rest, additive_op, additive_spec, additive_tail, after, ambiguity_from, and_keyword_at,
    and_spec, and_tail, bool_spec, comparison_spec, comparison_tail, factor_spec, factorial_spec,
    is_keyword, is_op, juxtaposed_spec, juxtaposed_tail, multiplicative_op, multiplicative_spec,
    multiplicative_tail, or_keyword_at, or_spec, or_tail, parse_no_preprocess_spec, parse_spec,
    power_spec, power_tail, preprocess_spec, relational_op, Parsed,
};
use crate::lexer::{token_views, Keyword, Operator, Token, TokenView};
use crate::number::Num;

verus! {

/// An expression tree. Each node owns its children.
#[derive(Debug, PartialEq)]
pub enum Expr<T> {
    BoolOp(Keyword, Box<Expr<T>>, Box<Expr<T>>),
    Bool(bool),
    BoolNot(Box<Expr<T>>),
    BinCmp(Operator, Box<Expr<T>>, Box<Expr<T>>),
    BinOp(Operator, Box<Expr<T>>, Box<Expr<T>>),
    Pow(Box<Expr<T>>, Box<Expr<T>>),
    Neg(Box<Expr<T>>),
    Abs(Box<Expr<T>>),
    Factorial(Box<Expr<T>>),
    Function(String, Box<Expr<T>>),
    Assignment(String, Box<Expr<T>>),
    Constant(T),
    Identifier(String),
}

/// The tree that an `Expr` stands for, with names as sequences of characters.
pub enum ExprView<T> {
    BoolOp(Keyword, Box<ExprView<T>>, Box<ExprView<T>>),
    Bool(bool),
    BoolNot(Box<ExprView<T>>),
    BinCmp(Operator, Box<ExprView<T>>, Box<ExprView<T>>),
    BinOp(Operator, Box<ExprView<T>>, Box<ExprView<T>>),
    Pow(Box<ExprView<T>>, Box<ExprView<T>>),
    Neg(Box<ExprView<T>>),
    Abs(Box<ExprView<T>>),
    Factorial(Box<ExprView<T>>),
    Function(Seq<char>, Box<ExprView<T>>),
    Assignment(Seq<char>, Box<ExprView<T>>),
    Constant(T),
    Identifier(Seq<char>),
}

impl<T> View for Expr<T> {
    type V = ExprView<T>;

    open spec fn view(&self) -> ExprView<T>
        decreases self,
    {
        match self {
            Expr::BoolOp(k, a, b) => ExprView::BoolOp(
                *k,
                Box::new((**a).view()),
                Box::new((**b).view()),
            ),
            Expr::Bool(b) => ExprView::Bool(*b),
            Expr::BoolNot(a) => ExprView::BoolNot(Box::new((**a).view())),
            Expr::BinCmp(op, a, b) => ExprView::BinCmp(
                *op,
                Box::new((**a).view()),
                Box::new((**b).view()),
            ),
            Expr::BinOp(op, a, b) => ExprView::BinOp(
                *op,
                Box::new((**a).view()),
                Box::new((**b).view()),
            ),
            Expr::Pow(a, b) => ExprView::Pow(Box::new((**a).view()), Box::new((**b).view())),
            Expr::Neg(a) => ExprView::Neg(Box::new((**a).view())),
            Expr::Abs(a) => ExprView::Abs(Box::new((**a).view())),
            Expr::Factorial(a) => ExprView::Factorial(Box::new((**a).view())),
            Expr::Function(name, a) => ExprView::Function(name@, Box::new((**a).view())),
            Expr::Assignment(name, a) => ExprView::Assignment(name@, Box::new((**a).view())),
            Expr::Constant(n) => ExprView::Constant(*n),
            Expr::Identifier(name) => ExprView::Identifier(name@),
        }
    }
}

/// Why a run of tokens is no expression.
#[derive(Debug, PartialEq)]
pub enum ParserError<T> {
    /// A `(` without its `)`.
    ExpectedClosingParenthesis,
    /// A `|` without its partner.
    ExpectedClosingPipe,
    /// A value was due; the token found in its place, if there was one.
    ExpectedFactor(Option<Token<T>>),
    /// An expression was read and tokens were left over: the expression, and
    /// every token after it.
    UnexpectedToken(Expr<T>, Vec<Token<T>>),
    /// A number stands directly before this identifier.
    UnexpectedNumber(Token<T>),
}

/// A `ParserError` with its tokens and tree taken by their views.
pub enum ParserErrorView<T> {
    ExpectedClosingParenthesis,
    ExpectedClosingPipe,
    ExpectedFactor(Option<TokenView<T>>),
    UnexpectedToken(ExprView<T>, Seq<TokenView<T>>),
    UnexpectedNumber(TokenView<T>),
}

impl<T> View for ParserError<T> {
    type V = ParserErrorView<T>;

    open spec fn view(&self) -> ParserErrorView<T> {
        match self {
            ParserError::ExpectedClosingParenthesis => ParserErrorView::ExpectedClosingParenthesis,
            ParserError::ExpectedClosingPipe => ParserErrorView::ExpectedClosingPipe,
            ParserError::ExpectedFactor(t) => ParserErrorView::ExpectedFactor(
                match t {
                    Some(t) => Some(t@),
                    None => None,
                },
            ),
            ParserError::UnexpectedToken(e, rest) => ParserErrorView::UnexpectedToken(
                e@,
                token_views(rest@),
            ),
            ParserError::UnexpectedNumber(t) => ParserErrorView::UnexpectedNumber(t@),
        }
    }
}

/// What an executable rule returned, by views.
pub open spec fn parsed_view<T>(r: (Result<Expr<T>, ParserError<T>>, usize)) -> Parsed<T> {
    (
        match r.0 {
            Ok(e) => Ok(e@),
            Err(e) => Err(e@),
        },
        r.1 as int,
    )
}

/// An executable rule that started at `pos` returned what the grammar says,
/// stayed inside the input, and took a token if it succeeded.
pub open spec fn follows<T>(
    r: (Result<Expr<T>, ParserError<T>>, usize),
    expected: Parsed<T>,
    pos: usize,
    len: int,
) -> bool {
    &&& parsed_view(r) == expected
    &&& pos <= r.1 <= len
    &&& (r.0 is Ok ==> pos < r.1)
}

/// What `parse` returned, by views.
pub open spec fn parse_result_view<T>(r: Result<Expr<T>, ParserError<T>>) -> Result<
    ExprView<T>,
    ParserErrorView<T>,
> {
    match r {
        Ok(e) => Ok(e@),
        Err(e) => Err(e@),
    }
}

fn holds_operator<T>(tokens: &[Token<T>], pos: usize, op: Operator) -> (r: bool)
    ensures
        r == is_op(token_views(tokens@), pos as int, op),
{
    if pos < tokens.len() {
        match &tokens[pos] {
            Token::Operator(o) => *o == op,
            _ => false,
        }
    } else {
        false
    }
}

fn holds_keyword<T>(tokens: &[Token<T>], pos: usize, k: Keyword) -> (r: bool)
    ensures
        r == is_keyword(token_views(tokens@), pos as int, k),
{
    if pos < tokens.len() {
        match &tokens[pos] {
            Token::Keyword(found) => *found == k,
            _ => false,
        }
    } else {
        false
    }
}

fn step_over<T>(tokens: &[Token<T>], pos: usize) -> (r: usize)
    requires
        pos <= tokens.len(),
    ensures
        r == after(token_views(tokens@), pos as int),
        pos <= r <= tokens.len(),
{
    if pos < tokens.len() {
        pos + 1
    } else {
        pos
    }
}

fn multiplicative_operator<T>(tokens: &[Token<T>], pos: usize) -> (r: Option<Operator>)
    ensures
        r == multiplicative_op(token_views(tokens@), pos as int),
{
    if holds_operator(tokens, pos, Operator::Star) {
        Some(Operator::Star)
    } else if holds_operator(tokens, pos, Operator::Slash) {
        Some(Operator::Slash)
    } else {
        None
    }
}

fn additive_operator<T>(tokens: &[Token<T>], pos: usize) -> (r: Option<Operator>)
    ensures
        r == additive_op(token_views(tokens@), pos as int),
{
    if holds_operator(tokens, pos, Operator::Plus) {
        Some(Operator::Plus)
    } else if holds_operator(tokens, pos, Operator::Minus) {
        Some(Operator::Minus)
    } else {
        None
    }
}

fn relational_operator<T>(tokens: &[Token<T>], pos: usize) -> (r: Option<Operator>)
    ensures
        r == relational_op(token_views(tokens@), pos as int),
{
    if holds_operator(tokens, pos, Operator::Equals) {
        Some(Operator::Equals)
    } else if holds_operator(tokens, pos, Operator::Greater) {
        Some(Operator::Greater)
    } else if holds_operator(tokens, pos, Operator::GreaterEqual) {
        Some(Operator::GreaterEqual)
    } else if holds_operator(tokens, pos, Operator::Lesser) {
        Some(Operator::Lesser)
    } else if holds_operator(tokens, pos, Operator::LesserEqual) {
        Some(Operator::LesserEqual)
    } else if holds_operator(tokens, pos, Operator::NotEquals) {
        Some(Operator::NotEquals)
    } else {
        None
    }
}

fn or_keyword<T>(tokens: &[Token<T>], pos: usize) -> (r: Option<Keyword>)
    ensures
        r == or_keyword_at(token_views(tokens@), pos as int),
{
    if holds_keyword(tokens, pos, Keyword::Or) {
        Some(Keyword::Or)
    } else {
        None
    }
}

fn and_keyword<T>(tokens: &[Token<T>], pos: usize) -> (r: Option<Keyword>)
    ensures
        r == and_keyword_at(token_views(tokens@), pos as int),
{
    if holds_keyword(tokens, pos, Keyword::And) {
        Some(Keyword::And)
    } else {
        None
    }
}

fn close_abs<T>(tokens: &[Token<T>], inner: (Result<Expr<T>, ParserError<T>>, usize)) -> (r: (
    Result<Expr<T>, ParserError<T>>,
    usize,
))
    requires
        inner.1 <= tokens.len(),
    ensures
        parsed_view(r) == abs_rest(token_views(tokens@), parsed_view(inner)),
        inner.1 <= r.1 <= tokens.len(),
{
    let (r, q) = inner;
    match r {
        Ok(e) => if holds_operator(tokens, q, Operator::Pipe) {
            (Ok(Expr::Abs(Box::new(e))), q + 1)
        } else {
            (Err(ParserError::ExpectedClosingPipe), step_over(tokens, q))
        },
        Err(e) => (Err(e), q),
    }
}

/// Reads a factor: the tightest rule of the grammar.
fn parse_factor<T: Num>(tokens: &[Token<T>], pos: usize) -> (r: (
    Result<Expr<T>, ParserError<T>>,
    usize,
))
    requires
        pos <= tokens.len(),
    ensures
        follows(r, factor_spec(token_views(tokens@), pos as int), pos, tokens.len() as int),
    decreases tokens.len() - pos, 0int,
{
    if pos >= tokens.len() {
        return (Err(ParserError::ExpectedFactor(None)), pos);
    }
    match &tokens[pos] {
        Token::Operator(Operator::LParen) => {
            let (r, q) = parse_additive_expr(tokens, pos + 1);
            match r {
                Ok(e) => if holds_operator(tokens, q, Operator::RParen) {
                    (Ok(e), q + 1)
                } else {
                    (Err(ParserError::ExpectedClosingParenthesis), step_over(tokens, q))
                },
                Err(e) => (Err(e), q),
            }
        },
        Token::Operator(Operator::Pipe) => {
            let inner = parse_additive_expr(tokens, pos + 1);
            close_abs(tokens, inner)
        },
        Token::Identifier(id) => {
            let next = if pos + 1 < tokens.len() {
                Some(&tokens[pos + 1])
            } else {
                None
            };
            match next {
                Some(Token::Operator(Operator::LParen)) => {
                    let (r, q) = parse_additive_expr(tokens, pos + 2);
                    match r {
                        Ok(e) => if holds_operator(tokens, q, Operator::RParen) {
                            (Ok(Expr::Function(id.clone(), Box::new(e))), q + 1)
                        } else {
                            (Err(ParserError::ExpectedClosingParenthesis), step_over(tokens, q))
                        },
                        Err(e) => (Err(e), q),
                    }
                },
                Some(Token::Operator(Operator::Pipe)) => {
                    let inner = parse_additive_expr(tokens, pos + 2);
                    close_abs(tokens, inner)
                },
                Some(Token::Number(n)) => {
                    let argument = Expr::Constant(n.duplicate());
                    assert(argument@ == ExprView::Constant(*n));
                    (Ok(Expr::Function(id.clone(), Box::new(argument))), pos + 2)
                },
                Some(Token::Identifier(_)) => {
                    let (r, q) = parse_factor(tokens, pos + 1);
                    match r {
                        Ok(e) => (Ok(Expr::Function(id.clone(), Box::new(e))), q),
                        Err(e) => (Err(e), q),
                    }
                },
                Some(Token::Operator(Operator::Equals)) => {
                    let (r, q) = parse_additive_expr(tokens, pos + 2);
                    match r {
                        Ok(e) => (Ok(Expr::Assignment(id.clone(), Box::new(e))), q),
                        Err(e) => (Err(e), q),
                    }
                },
                _ => (Ok(Expr::Identifier(id.clone())), pos + 1),
            }
        },
        Token::Operator(Operator::Minus) => {
            let (r, q) = parse_factor(tokens, pos + 1);
            match r {
                Ok(e) => (Ok(Expr::Neg(Box::new(e))), q),
                Err(e) => (Err(e), q),
            }
        },
        Token::Number(n) => (Ok(Expr::Constant(n.duplicate())), pos + 1),
        t => (Err(ParserError::ExpectedFactor(Some(t.duplicate()))), pos + 1),
    }
}

/// Reads a factor and the `!` behind it, where there is one.
fn parse_factorial_expr<T: Num>(tokens: &[Token<T>], pos: usize) -> (r: (
    Result<Expr<T>, ParserError<T>>,
    usize,
))
    requires
        pos <= tokens.len(),
    ensures
        follows(r, factorial_spec(token_views(tokens@), pos as int), pos, tokens.len() as int),
    decreases tokens.len() - pos, 1int,
{
    let (r, q) = parse_factor(tokens, pos);
    match r {
        Ok(e) => if holds_operator(tokens, q, Operator::Exclamation) {
            (Ok(Expr::Factorial(Box::new(e))), q + 1)
        } else {
            (Ok(e), q)
        },
        Err(e) => (Err(e), q),
    }
}

/// Reads the exponents that follow a base.
fn parse_exponents<T: Num>(tokens: &[Token<T>], pos: usize, base: Expr<T>) -> (r: (
    Result<Expr<T>, ParserError<T>>,
    usize,
))
    requires
        pos <= tokens.len(),
    ensures
        parsed_view(r) == power_tail(token_views(tokens@), pos as int, base@),
        pos <= r.1 <= tokens.len(),
    decreases tokens.len() - pos, 0int,
{
    let mut expr = base;
    let mut at = pos;
    while holds_operator(tokens, at, Operator::Caret)
        invariant
            pos <= at <= tokens.len(),
            power_tail(token_views(tokens@), pos as int, base@) == power_tail(
                token_views(tokens@),
                at as int,
                expr@,
            ),
        decreases tokens.len() - at,
    {
        let (exponent, q) = parse_factorial_expr(tokens, at + 1);
        match exponent {
            Ok(e) => {
                expr = Expr::Pow(Box::new(expr), Box::new(e));
                at = q;
            },
            Err(e) => {
                return (Err(e), q);
            },
        }
    }
    (Ok(expr), at)
}

/// Reads a factorial expression and its exponents.
fn parse_power_expr<T: Num>(tokens: &[Token<T>], pos: usize) -> (r: (
    Result<Expr<T>, ParserError<T>>,
    usize,
))
    requires
        pos <= tokens.len(),
    ensures
        follows(r, power_spec(token_views(tokens@), pos as int), pos, tokens.len() as int),
    decreases tokens.len() - pos, 2int,
{
    let (r, q) = parse_factorial_expr(tokens, pos);
    match r {
        Ok(e) => parse_exponents(tokens, q, e),
        Err(e) => (Err(e), q),
    }
}

/// Reads a power and the parenthesised expressions written directly behind
/// it, each of which multiplies what stands before.
fn parse_parenthetical_multiplicative_expr<T: Num>(tokens: &[Token<T>], pos: usize) -> (r: (
    Result<Expr<T>, ParserError<T>>,
    usize,
))
    requires
        pos <= tokens.len(),
    ensures
        follows(r, juxtaposed_spec(token_views(tokens@), pos as int), pos, tokens.len() as int),
    decreases tokens.len() - pos, 3int,
{
    let (first, start) = parse_power_expr(tokens, pos);
    let mut expr = match first {
        Ok(e) => e,
        Err(e) => {
            return (Err(e), start);
        },
    };
    let mut at = start;
    while holds_operator(tokens, at, Operator::LParen)
        invariant
            pos < at <= tokens.len(),
            juxtaposed_spec(token_views(tokens@), pos as int) == juxtaposed_tail(
                token_views(tokens@),
                at as int,
                expr@,
            ),
        decreases tokens.len() - at,
    {
        let (inner, q) = parse_additive_expr(tokens, at + 1);
        let inner = match inner {
            Ok(e) => e,
            Err(e) => {
                return (Err(e), q);
            },
        };
        if !holds_operator(tokens, q, Operator::RParen) {
            return (Err(ParserError::ExpectedClosingParenthesis), step_over(tokens, q));
        }
        let (right, q2) = parse_exponents(tokens, q + 1, inner);
        match right {
            Ok(e) => {
                expr = Expr::BinOp(Operator::Star, Box::new(expr), Box::new(e));
                at = q2;
            },
            Err(e) => {
                return (Err(e), q2);
            },
        }
    }
    (Ok(expr), at)
}

/// Reads operands joined by `*` and `/`.
fn parse_multiplicative_expr<T: Num>(tokens: &[Token<T>], pos: usize) -> (r: (
    Result<Expr<T>, ParserError<T>>,
    usize,
))
    requires
        pos <= tokens.len(),
    ensures
        follows(r, multiplicative_spec(token_views(tokens@), pos as int), pos, tokens.len() as int),
    decreases tokens.len() - pos, 4int,
{
    let (first, start) = parse_parenthetical_multiplicative_expr(tokens, pos);
    let mut expr = match first {
        Ok(e) => e,
        Err(e) => {
            return (Err(e), start);
        },
    };
    let mut at = start;
    let mut next = multiplicative_operator(tokens, at);
    while next.is_some()
        invariant
            pos < at <= tokens.len(),
            next == multiplicative_op(token_views(tokens@), at as int),
            multiplicative_spec(token_views(tokens@), pos as int) == multiplicative_tail(
                token_views(tokens@),
                at as int,
                expr@,
            ),
        decreases tokens.len() - at,
    {
        let op = next.unwrap();
        let (right, q) = parse_parenthetical_multiplicative_expr(tokens, at + 1);
        match right {
            Ok(e) => {
                expr = Expr::BinOp(op, Box::new(expr), Box::new(e));
                at = q;
            },
            Err(e) => {
                return (Err(e), q);
            },
        }
        next = multiplicative_operator(tokens, at);
    }
    (Ok(expr), at)
}

/// Reads operands joined by `+` and `-`.
fn parse_additive_expr<T: Num>(tokens: &[Token<T>], pos: usize) -> (r: (
    Result<Expr<T>, ParserError<T>>,
    usize,
))
    requires
        pos <= tokens.len(),
    ensures
        follows(r, additive_spec(token_views(tokens@), pos as int), pos, tokens.len() as int),
    decreases tokens.len() - pos, 5int,
{
    let (first, start) = parse_multiplicative_expr(tokens, pos);
    let mut expr = match first {
        Ok(e) => e,
        Err(e) => {
            return (Err(e), start);
        },
    };
    let mut at = start;
    let mut next = additive_operator(tokens, at);
    while next.is_some()
        invariant
            pos < at <= tokens.len(),
            next == additive_op(token_views(tokens@), at as int),
            additive_spec(token_views(tokens@), pos as int) == additive_tail(
                token_views(tokens@),
                at as int,
                expr@,
            ),
        decreases tokens.len() - at,
    {
        let op = next.unwrap();
        let (right, q) = parse_multiplicative_expr(tokens, at + 1);
        match right {
            Ok(e) => {
                expr = Expr::BinOp(op, Box::new(expr), Box::new(e));
                at = q;
            },
            Err(e) => {
                return (Err(e), q);
            },
        }
        next = additive_operator(tokens, at);
    }
    (Ok(expr), at)
}

/// Reads additive expressions joined by relations.
fn parse_comparison<T: Num>(tokens: &[Token<T>], pos: usize) -> (r: (
    Result<Expr<T>, ParserError<T>>,
    usize,
))
    requires
        pos <= tokens.len(),
    ensures
        follows(r, comparison_spec(token_views(tokens@), pos as int), pos, tokens.len() as int),
    decreases tokens.len() - pos, 6int,
{
    let (first, start) = parse_additive_expr(tokens, pos);
    let mut expr = match first {
        Ok(e) => e,
        Err(e) => {
            return (Err(e), start);
        },
    };
    let mut at = start;
    let mut next = relational_operator(tokens, at);
    while next.is_some()
        invariant
            pos < at <= tokens.len(),
            next == relational_op(token_views(tokens@), at as int),
            comparison_spec(token_views(tokens@), pos as int) == comparison_tail(
                token_views(tokens@),
                at as int,
                expr@,
            ),
        decreases tokens.len() - at,
    {
        let op = next.unwrap();
        let (right, q) = parse_additive_expr(tokens, at + 1);
        match right {
            Ok(e) => {
                expr = Expr::BinCmp(op, Box::new(expr), Box::new(e));
                at = q;
            },
            Err(e) => {
                return (Err(e), q);
            },
        }
        next = relational_operator(tokens, at);
    }
    (Ok(expr), at)
}

/// Reads a boolean atom: a literal, a negation, or a comparison.
fn parse_bool<T: Num>(tokens: &[Token<T>], pos: usize) -> (r: (
    Result<Expr<T>, ParserError<T>>,
    usize,
))
    requires
        pos <= tokens.len(),
    ensures
        follows(r, bool_spec(token_views(tokens@), pos as int), pos, tokens.len() as int),
    decreases tokens.len() - pos, 7int,
{
    if holds_keyword(tokens, pos, Keyword::True) {
        (Ok(Expr::Bool(true)), pos + 1)
    } else if holds_keyword(tokens, pos, Keyword::False) {
        (Ok(Expr::Bool(false)), pos + 1)
    } else if holds_operator(tokens, pos, Operator::Exclamation) {
        let (r, q) = parse_bool(tokens, pos + 1);
        match r {
            Ok(e) => (Ok(Expr::BoolNot(Box::new(e))), q),
            Err(e) => (Err(e), q),
        }
    } else {
        parse_comparison(tokens, pos)
    }
}

/// Reads boolean atoms joined by `or`.
fn parse_bool_or<T: Num>(tokens: &[Token<T>], pos: usize) -> (r: (
    Result<Expr<T>, ParserError<T>>,
    usize,
))
    requires
        pos <= tokens.len(),
    ensures
        follows(r, or_spec(token_views(tokens@), pos as int), pos, tokens.len() as int),
    decreases tokens.len() - pos, 8int,
{
    let (first, start) = parse_bool(tokens, pos);
    let mut expr = match first {
        Ok(e) => e,
        Err(e) => {
            return (Err(e), start);
        },
    };
    let mut at = start;
    let mut next = or_keyword(tokens, at);
    while next.is_some()
        invariant
            pos < at <= tokens.len(),
            next == or_keyword_at(token_views(tokens@), at as int),
            or_spec(token_views(tokens@), pos as int) == or_tail(
                token_views(tokens@),
                at as int,
                expr@,
            ),
        decreases tokens.len() - at,
    {
        let op = next.unwrap();
        let (right, q) = parse_bool(tokens, at + 1);
        match right {
            Ok(e) => {
                expr = Expr::BoolOp(op, Box::new(expr), Box::new(e));
                at = q;
            },
            Err(e) => {
                return (Err(e), q);
            },
        }
        next = or_keyword(tokens, at);
    }
    (Ok(expr), at)
}

/// Reads `or` expressions joined by `and`: the loosest rule.
fn parse_bool_and<T: Num>(tokens: &[Token<T>], pos: usize) -> (r: (
    Result<Expr<T>, ParserError<T>>,
    usize,
))
    requires
        pos <= tokens.len(),
    ensures
        follows(r, and_spec(token_views(tokens@), pos as int), pos, tokens.len() as int),
    decreases tokens.len() - pos, 9int,
{
    let (first, start) = parse_bool_or(tokens, pos);
    let mut expr = match first {
        Ok(e) => e,
        Err(e) => {
            return (Err(e), start);
        },
    };
    let mut at = start;
    let mut next = and_keyword(tokens, at);
    while next.is_some()
        invariant
            pos < at <= tokens.len(),
            next == and_keyword_at(token_views(tokens@), at as int),
            and_spec(token_views(tokens@), pos as int) == and_tail(
                token_views(tokens@),
                at as int,
                expr@,
            ),
        decreases tokens.len() - at,
    {
        let op = next.unwrap();
        let (right, q) = parse_bool_or(tokens, at + 1);
        match right {
            Ok(e) => {
                expr = Expr::BoolOp(op, Box::new(expr), Box::new(e));
                at = q;
            },
            Err(e) => {
                return (Err(e), q);
            },
        }
        next = and_keyword(tokens, at);
    }
    (Ok(expr), at)
}

/// What `preprocess` returned, by views.
pub open spec fn preprocess_view<T>(r: Option<ParserError<T>>) -> Option<ParserErrorView<T>> {
    match r {
        Some(e) => Some(e@),
        None => None,
    }
}

/// Looks for a number written directly before an identifier, as in `2x`: the
/// grammar cannot tell a product from a malformed token there. Returns the
/// error for the first such identifier, or `None` where there is none.
pub fn preprocess<T: Num>(tokens: &[Token<T>]) -> (r: Option<ParserError<T>>)
    ensures
        preprocess_view(r) == preprocess_spec(token_views(tokens@)),
{
    let mut i: usize = 0;
    while i < tokens.len()
        invariant
            i <= tokens.len(),
            ambiguity_from(token_views(tokens@), 0) == ambiguity_from(
                token_views(tokens@),
                i as int,
            ),
        decreases tokens.len() - i,
    {
        if i + 1 < tokens.len() {
            match (&tokens[i], &tokens[i + 1]) {
                (Token::Number(_), Token::Identifier(_)) => {
                    return Some(ParserError::UnexpectedNumber(tokens[i + 1].duplicate()));
                },
                _ => {},
            }
        }
        i += 1;
    }
    None
}

fn remaining<T: Num>(tokens: &[Token<T>], from: usize) -> (rest: Vec<Token<T>>)
    requires
        from <= tokens.len(),
    ensures
        token_views(rest@) == token_views(tokens@).subrange(from as int, tokens.len() as int),
{
    let mut rest: Vec<Token<T>> = Vec::new();
    let mut i: usize = from;
    while i < tokens.len()
        invariant
            from <= i <= tokens.len(),
            rest@.len() == i - from,
            forall|j: int| 0 <= j < rest@.len() ==> rest@[j]@ == tokens@[from + j]@,
        decreases tokens.len() - i,
    {
        rest.push(tokens[i].duplicate());
        i += 1;
    }
    assert(token_views(rest@) =~= token_views(tokens@).subrange(
        from as int,
        tokens.len() as int,
    ));
    rest
}

/// Turns a run of tokens into an expression tree.
///
/// The tokens are first checked for a number directly before an identifier.
/// Then the grammar reads one expression from the start; tokens left over
/// behind it are an error that carries the expression and all of them.
pub fn parse<T: Num>(tokens: &[Token<T>]) -> (r: Result<Expr<T>, ParserError<T>>)
    ensures
        parse_result_view(r) == parse_spec(token_views(tokens@)),
{
    match preprocess(tokens) {
        Some(e) => Err(e),
        None => parse_no_preprocess(tokens),
    }
}

/// As `parse`, without the check for a number before an identifier: the
/// grammar reads one expression from the start, and tokens left over behind
/// it are an error that carries the expression and all of them.
pub fn parse_no_preprocess<T: Num>(tokens: &[Token<T>]) -> (r: Result<Expr<T>, ParserError<T>>)
    ensures
        parse_result_view(r) == parse_no_preprocess_spec(token_views(tokens@)),
{
    let (r, q) = parse_bool_and(tokens, 0);
    match r {
        Ok(e) => if q < tokens.len() {
            let rest = remaining(tokens, q);
            Err(ParserError::UnexpectedToken(e, rest))
        } else {
            Ok(e)
        },
        Err(e) => Err(e),
    }
}

impl<T: Num> Clone for Expr<T> {
    fn clone(&self) -> (r: Expr<T>)
        ensures
            r@ == self@,
    {
        self.duplicate()
    }
}

impl<T: Num> Clone for ParserError<T> {
    fn clone(&self) -> (r: ParserError<T>)
        ensures
            r@ == self@,
    {
        match self {
            ParserError::ExpectedClosingParenthesis => ParserError::ExpectedClosingParenthesis,
            ParserError::ExpectedClosingPipe => ParserError::ExpectedClosingPipe,
            ParserError::ExpectedFactor(None) => ParserError::ExpectedFactor(None),
            ParserError::ExpectedFactor(Some(t)) => ParserError::ExpectedFactor(
                Some(t.duplicate()),
            ),
            ParserError::UnexpectedToken(e, rest) => {
                let copied = remaining(rest.as_slice(), 0);
                assert(token_views(rest@).subrange(0, rest@.len() as int) =~= token_views(rest@));
                ParserError::UnexpectedToken(e.duplicate(), copied)
            },
            ParserError::UnexpectedNumber(t) => ParserError::UnexpectedNumber(t.duplicate()),
        }
    }
}

/// Whether two trees are of the same variant at the root.
pub open spec fn same_variant<T>(a: ExprView<T>, b: ExprView<T>) -> bool {
    match (a, b) {
        (ExprView::BoolOp(..), ExprView::BoolOp(..)) => true,
        (ExprView::Bool(_), ExprView::Bool(_)) => true,
        (ExprView::BoolNot(_), ExprView::BoolNot(_)) => true,
        (ExprView::BinCmp(..), ExprView::BinCmp(..)) => true,
        (ExprView::BinOp(..), ExprView::BinOp(..)) => true,
        (ExprView::Pow(..), ExprView::Pow(..)) => true,
        (ExprView::Neg(_), ExprView::Neg(_)) => true,
        (ExprView::Abs(_), ExprView::Abs(_)) => true,
        (ExprView::Factorial(_), ExprView::Factorial(_)) => true,
        (ExprView::Function(..), ExprView::Function(..)) => true,
        (ExprView::Assignment(..), ExprView::Assignment(..)) => true,
        (ExprView::Constant(_), ExprView::Constant(_)) => true,
        (ExprView::Identifier(_), ExprView::Identifier(_)) => true,
        _ => false,
    }
}

/// Whether two trees are equal node by node: the same variants, operators
/// and names, and constants that the number type calls equal.
pub open spec fn same_tree<T: Num>(a: ExprView<T>, b: ExprView<T>) -> bool
    decreases a,
{
    match (a, b) {
        (ExprView::BoolOp(k, a1, a2), ExprView::BoolOp(l, b1, b2)) => k == l && same_tree(
            *a1,
            *b1,
        ) && same_tree(*a2, *b2),
        (ExprView::Bool(x), ExprView::Bool(y)) => x == y,
        (ExprView::BoolNot(a1), ExprView::BoolNot(b1)) => same_tree(*a1, *b1),
        (ExprView::BinCmp(o, a1, a2), ExprView::BinCmp(p, b1, b2)) => o == p && same_tree(
            *a1,
            *b1,
        ) && same_tree(*a2, *b2),
        (ExprView::BinOp(o, a1, a2), ExprView::BinOp(p, b1, b2)) => o == p && same_tree(
            *a1,
            *b1,
        ) && same_tree(*a2, *b2),
        (ExprView::Pow(a1, a2), ExprView::Pow(b1, b2)) => same_tree(*a1, *b1) && same_tree(
            *a2,
            *b2,
        ),
        (ExprView::Neg(a1), ExprView::Neg(b1)) => same_tree(*a1, *b1),
        (ExprView::Abs(a1), ExprView::Abs(b1)) => same_tree(*a1, *b1),
        (ExprView::Factorial(a1), ExprView::Factorial(b1)) => same_tree(*a1, *b1),
        (ExprView::Function(n, a1), ExprView::Function(m, b1)) => n == m && same_tree(*a1, *b1),
        (ExprView::Assignment(n, a1), ExprView::Assignment(m, b1)) => n == m && same_tree(
            *a1,
            *b1,
        ),
        (ExprView::Constant(x), ExprView::Constant(y)) => x.spec_equals(&y),
        (ExprView::Identifier(n), ExprView::Identifier(m)) => n == m,
        _ => false,
    }
}

/// Whether a node is one that a substitution replaces: of the pattern's
/// variant where fields are ignored, equal to the pattern otherwise.
pub open spec fn is_match<T: Num>(e: ExprView<T>, pattern: ExprView<T>, ignore_fields: bool) -> bool {
    if ignore_fields {
        same_variant(e, pattern)
    } else {
        same_tree(e, pattern)
    }
}

/// The number of nodes of a tree.
pub open spec fn node_count<T>(e: ExprView<T>) -> nat
    decreases e,
{
    match e {
        ExprView::BoolOp(_, a, b) | ExprView::BinCmp(_, a, b) | ExprView::BinOp(_, a, b) => 1
            + node_count(*a) + node_count(*b),
        ExprView::Pow(a, b) => 1 + node_count(*a) + node_count(*b),
        ExprView::BoolNot(a) | ExprView::Neg(a) | ExprView::Abs(a) | ExprView::Factorial(a) => 1
            + node_count(*a),
        ExprView::Function(_, a) | ExprView::Assignment(_, a) => 1 + node_count(*a),
        _ => 1,
    }
}

/// The number of nodes that a substitution replaces: the matching nodes that
/// its walk reaches. The walk stops at a match, and below a node that does
/// not match it goes on into the operands of `BinOp` and `Pow` and the inside
/// of `Neg` and `Function` only.
pub open spec fn match_count<T: Num>(
    e: ExprView<T>,
    pattern: ExprView<T>,
    ignore_fields: bool,
) -> nat
    decreases e,
{
    if is_match(e, pattern, ignore_fields) {
        1
    } else {
        match e {
            ExprView::BinOp(_, a, b) | ExprView::Pow(a, b) => match_count(
                *a,
                pattern,
                ignore_fields,
            ) + match_count(*b, pattern, ignore_fields),
            ExprView::Neg(a) | ExprView::Function(_, a) => match_count(*a, pattern, ignore_fields),
            _ => 0,
        }
    }
}

/// A tree after substitution, and the number of nodes replaced.
///
/// The tree is walked from the root. A matching node becomes the replacement
/// and is not looked into. Below a node that does not match, the walk goes on
/// into the operands of `BinOp` and `Pow` and the inside of `Neg` and
/// `Function`; every other node is left as it is.
pub open spec fn replace_spec<T: Num>(
    e: ExprView<T>,
    pattern: ExprView<T>,
    replacement: ExprView<T>,
    ignore_fields: bool,
) -> (ExprView<T>, nat)
    decreases e,
{
    if is_match(e, pattern, ignore_fields) {
        (replacement, 1)
    } else {
        match e {
            ExprView::BinOp(op, a, b) => {
                let (a2, n) = replace_spec(*a, pattern, replacement, ignore_fields);
                let (b2, m) = replace_spec(*b, pattern, replacement, ignore_fields);
                (ExprView::BinOp(op, Box::new(a2), Box::new(b2)), n + m)
            },
            ExprView::Pow(a, b) => {
                let (a2, n) = replace_spec(*a, pattern, replacement, ignore_fields);
                let (b2, m) = replace_spec(*b, pattern, replacement, ignore_fields);
                (ExprView::Pow(Box::new(a2), Box::new(b2)), n + m)
            },
            ExprView::Neg(a) => {
                let (a2, n) = replace_spec(*a, pattern, replacement, ignore_fields);
                (ExprView::Neg(Box::new(a2)), n)
            },
            ExprView::Function(name, a) => {
                let (a2, n) = replace_spec(*a, pattern, replacement, ignore_fields);
                (ExprView::Function(name, Box::new(a2)), n)
            },
            _ => (e, 0),
        }
    }
}

impl<T: Num> Expr<T> {
    /// A copy of the tree.
    pub fn duplicate(&self) -> (r: Expr<T>)
        ensures
            r@ == self@,
        decreases self,
    {
        match self {
            Expr::BoolOp(k, a, b) => Expr::BoolOp(
                *k,
                Box::new(a.duplicate()),
                Box::new(b.duplicate()),
            ),
            Expr::Bool(b) => Expr::Bool(*b),
            Expr::BoolNot(a) => Expr::BoolNot(Box::new(a.duplicate())),
            Expr::BinCmp(op, a, b) => Expr::BinCmp(
                *op,
                Box::new(a.duplicate()),
                Box::new(b.duplicate()),
            ),
            Expr::BinOp(op, a, b) => Expr::BinOp(
                *op,
                Box::new(a.duplicate()),
                Box::new(b.duplicate()),
            ),
            Expr::Pow(a, b) => Expr::Pow(Box::new(a.duplicate()), Box::new(b.duplicate())),
            Expr::Neg(a) => Expr::Neg(Box::new(a.duplicate())),
            Expr::Abs(a) => Expr::Abs(Box::new(a.duplicate())),
            Expr::Factorial(a) => Expr::Factorial(Box::new(a.duplicate())),
            Expr::Function(name, a) => Expr::Function(name.clone(), Box::new(a.duplicate())),
            Expr::Assignment(name, a) => Expr::Assignment(name.clone(), Box::new(a.duplicate())),
            Expr::Constant(n) => Expr::Constant(n.duplicate()),
            Expr::Identifier(name) => Expr::Identifier(name.clone()),
        }
    }

    /// Whether the two trees have the same variant at the root.
    pub fn same_kind(&self, other: &Expr<T>) -> (r: bool)
        ensures
            r == same_variant(self@, other@),
    {
        match (self, other) {
            (Expr::BoolOp(..), Expr::BoolOp(..)) => true,
            (Expr::Bool(_), Expr::Bool(_)) => true,
            (Expr::BoolNot(_), Expr::BoolNot(_)) => true,
            (Expr::BinCmp(..), Expr::BinCmp(..)) => true,
            (Expr::BinOp(..), Expr::BinOp(..)) => true,
            (Expr::Pow(..), Expr::Pow(..)) => true,
            (Expr::Neg(_), Expr::Neg(_)) => true,
            (Expr::Abs(_), Expr::Abs(_)) => true,
            (Expr::Factorial(_), Expr::Factorial(_)) => true,
            (Expr::Function(..), Expr::Function(..)) => true,
            (Expr::Assignment(..), Expr::Assignment(..)) => true,
            (Expr::Constant(_), Expr::Constant(_)) => true,
            (Expr::Identifier(_), Expr::Identifier(_)) => true,
            _ => false,
        }
    }

    /// Whether the two trees are equal node by node.
    pub fn same(&self, other: &Expr<T>) -> (r: bool)
        ensures
            r == same_tree(self@, other@),
        decreases self,
    {
        match (self, other) {
            (Expr::BoolOp(k, a1, a2), Expr::BoolOp(l, b1, b2)) => *k == *l && a1.same(b1)
                && a2.same(b2),
            (Expr::Bool(x), Expr::Bool(y)) => *x == *y,
            (Expr::BoolNot(a1), Expr::BoolNot(b1)) => a1.same(b1),
            (Expr::BinCmp(o, a1, a2), Expr::BinCmp(p, b1, b2)) => *o == *p && a1.same(b1)
                && a2.same(b2),
            (Expr::BinOp(o, a1, a2), Expr::BinOp(p, b1, b2)) => *o == *p && a1.same(b1)
                && a2.same(b2),
            (Expr::Pow(a1, a2), Expr::Pow(b1, b2)) => a1.same(b1) && a2.same(b2),
            (Expr::Neg(a1), Expr::Neg(b1)) => a1.same(b1),
            (Expr::Abs(a1), Expr::Abs(b1)) => a1.same(b1),
            (Expr::Factorial(a1), Expr::Factorial(b1)) => a1.same(b1),
            (Expr::Function(n, a1), Expr::Function(m, b1)) => *n == *m && a1.same(b1),
            (Expr::Assignment(n, a1), Expr::Assignment(m, b1)) => *n == *m && a1.same(b1),
            (Expr::Constant(x), Expr::Constant(y)) => x.equals(y),
            (Expr::Identifier(n), Expr::Identifier(m)) => *n == *m,
            _ => false,
        }
    }

    /// Counts the nodes that a substitution of `pattern` would replace, or
    /// returns `None` where the count does not fit its type.
    pub fn count_matches(&self, pattern: &Expr<T>, ignore_fields: bool) -> (r: Option<u32>)
        ensures
            match r {
                Some(n) => n == match_count(self@, pattern@, ignore_fields),
                None => match_count(self@, pattern@, ignore_fields) > u32::MAX,
            },
        decreases self,
    {
        let found = if ignore_fields {
            self.same_kind(pattern)
        } else {
            self.same(pattern)
        };
        if found {
            return Some(1);
        }
        match self {
            Expr::BinOp(_, a, b) | Expr::Pow(a, b) => {
                match (a.count_matches(pattern, ignore_fields), b.count_matches(
                    pattern,
                    ignore_fields,
                )) {
                    (Some(n), Some(m)) => if n > u32::MAX - m {
                        None
                    } else {
                        Some(n + m)
                    },
                    _ => None,
                }
            },
            Expr::Neg(a) | Expr::Function(_, a) => a.count_matches(pattern, ignore_fields),
            _ => Some(0),
        }
    }

    /// As `replace`, for any tree: where the count would not fit its type
    /// nothing is replaced and `None` is returned.
    pub fn try_replace(
        &mut self,
        pattern: &Expr<T>,
        replacement: &Expr<T>,
        ignore_fields: bool,
    ) -> (r: Option<u32>)
        ensures
            match r {
                Some(n) => {
                    &&& n == match_count(old(self)@, pattern@, ignore_fields)
                    &&& final(self)@ == replace_spec(
                        old(self)@,
                        pattern@,
                        replacement@,
                        ignore_fields,
                    ).0
                },
                None => {
                    &&& match_count(old(self)@, pattern@, ignore_fields) > u32::MAX
                    &&& final(self)@ == old(self)@
                },
            },
    {
        proof {
            lemma_replace_counts_matches(self@, pattern@, replacement@, ignore_fields);
        }
        match self.count_matches(pattern, ignore_fields) {
            Some(_) => Some(self.replace(pattern, replacement, ignore_fields)),
            None => None,
        }
    }

    /// Replaces the nodes that match `pattern` with copies of `replacement` and returns
    /// how many were replaced.
    ///
    /// With `ignore_fields` a node matches when it is of the variant of
    /// `pattern`; without, when it equals `pattern`. The count must fit its
    /// type, as it does in every tree of fewer than 2^32 nodes.
    pub fn replace(
        &mut self,
        pattern: &Expr<T>,
        replacement: &Expr<T>,
        ignore_fields: bool,
    ) -> (r: u32)
        requires
            replace_spec(old(self)@, pattern@, replacement@, ignore_fields).1 <= u32::MAX,
        ensures
            final(self)@ == replace_spec(old(self)@, pattern@, replacement@, ignore_fields).0,
            r == replace_spec(old(self)@, pattern@, replacement@, ignore_fields).1,
        decreases *old(self),
    {
        let found = if ignore_fields {
            self.same_kind(pattern)
        } else {
            self.same(pattern)
        };
        if found {
            *self = replacement.duplicate();
            return 1;
        }
        let mut replaced: u32 = 0;
        match self {
            Expr::BinOp(_, a, b) => {
                replaced += a.replace(pattern, replacement, ignore_fields);
                replaced += b.replace(pattern, replacement, ignore_fields);
            },
            Expr::Pow(a, b) => {
                replaced += a.replace(pattern, replacement, ignore_fields);
                replaced += b.replace(pattern, replacement, ignore_fields);
            },
            Expr::Neg(a) => {
                replaced += a.replace(pattern, replacement, ignore_fields);
            },
            Expr::Function(_, a) => {
                replaced += a.replace(pattern, replacement, ignore_fields);
            },
            _ => {},
        }
        replaced
    }
}

/// Parsing depends on what the tokens are and on nothing else: two runs of
/// tokens with the same views give the same tree or the same error.
pub proof fn lemma_parse_is_determined<T>(
    a: Seq<Token<T>>,
    b: Seq<Token<T>>,
    ra: Result<Expr<T>, ParserError<T>>,
    rb: Result<Expr<T>, ParserError<T>>,
)
    requires
        token_views(a) == token_views(b),
        parse_result_view(ra) == parse_spec(token_views(a)),
        parse_result_view(rb) == parse_spec(token_views(b)),
    ensures
        parse_result_view(ra) == parse_result_view(rb),
{
}

/// The count that a substitution returns is the number of matching nodes
/// that its walk reaches, whatever the replacement is.
pub proof fn lemma_replace_counts_matches<T: Num>(
    e: ExprView<T>,
    pattern: ExprView<T>,
    replacement: ExprView<T>,
    ignore_fields: bool,
)
    ensures
        replace_spec(e, pattern, replacement, ignore_fields).1 == match_count(
            e,
            pattern,
            ignore_fields,
        ),
    decreases e,
{
    if !is_match(e, pattern, ignore_fields) {
        match e {
            ExprView::BinOp(_, a, b) | ExprView::Pow(a, b) => {
                lemma_replace_counts_matches(*a, pattern, replacement, ignore_fields);
                lemma_replace_counts_matches(*b, pattern, replacement, ignore_fields);
            },
            ExprView::Neg(a) | ExprView::Function(_, a) => {
                lemma_replace_counts_matches(*a, pattern, replacement, ignore_fields);
            },
            _ => {},
        }
    }
}

/// A substitution replaces no more nodes than the tree has: the count fits
/// wherever the number of nodes does.
pub proof fn lemma_replace_count_bounded<T: Num>(
    e: ExprView<T>,
    pattern: ExprView<T>,
    replacement: ExprView<T>,
    ignore_fields: bool,
)
    ensures
        replace_spec(e, pattern, replacement, ignore_fields).1 <= node_count(e),
        match_count(e, pattern, ignore_fields) <= node_count(e),
    decreases e,
{
    lemma_replace_counts_matches(e, pattern, replacement, ignore_fields);
    if !is_match(e, pattern, ignore_fields) {
        match e {
            ExprView::BinOp(_, a, b) | ExprView::Pow(a, b) => {
                lemma_replace_count_bounded(*a, pattern, replacement, ignore_fields);
                lemma_replace_count_bounded(*b, pattern, replacement, ignore_fields);
            },
            ExprView::Neg(a) | ExprView::Function(_, a) => {
                lemma_replace_count_bounded(*a, pattern, replacement, ignore_fields);
            },
            _ => {},
        }
    }
}

/// A substitution turns a matching root into the replacement and counts one;
/// a root that does not match keeps its variant.
pub proof fn lemma_replace_at_root<T: Num>(
    e: ExprView<T>,
    pattern: ExprView<T>,
    replacement: ExprView<T>,
    ignore_fields: bool,
)
    ensures
        is_match(e, pattern, ignore_fields) ==> replace_spec(
            e,
            pattern,
            replacement,
            ignore_fields,
        ) == (replacement, 1nat),
        !is_match(e, pattern, ignore_fields) ==> same_variant(
            replace_spec(e, pattern, replacement, ignore_fields).0,
            e,
        ),
{
}

/// A substitution that replaces nothing leaves the tree as it was.
pub proof fn lemma_nothing_replaced_nothing_changed<T: Num>(
    e: ExprView<T>,
    pattern: ExprView<T>,
    replacement: ExprView<T>,
    ignore_fields: bool,
)
    requires
        replace_spec(e, pattern, replacement, ignore_fields).1 == 0,
    ensures
        replace_spec(e, pattern, replacement, ignore_fields).0 == e,
    decreases e,
{
    if !is_match(e, pattern, ignore_fields) {
        match e {
            ExprView::BinOp(_, a, b) | ExprView::Pow(a, b) => {
                lemma_nothing_replaced_nothing_changed(*a, pattern, replacement, ignore_fields);
                lemma_nothing_replaced_nothing_changed(*b, pattern, replacement, ignore_fields);
            },
            ExprView::Neg(a) | ExprView::Function(_, a) => {
                lemma_nothing_replaced_nothing_changed(*a, pattern, replacement, ignore_fields);
            },
            _ => {},
        }
    }
}

} // verus!
