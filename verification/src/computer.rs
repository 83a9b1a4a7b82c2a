//! Computing the value of an expression tree against named variables and
//! functions.

use vstd::prelude::*;
use vstd::hash_map::StringHashMap;
use vstd::string::*;
use crate::lexer::{
    is_number_char, is_word_char, is_word_start, lemma_literal_is_one_token,
    lemma_literal_then_word, lemma_word_is_one_token, lex_spec, tokenize, word_token, LexError,
    Operator, TokenView,
};
use crate::number::Num;
use crate::grammar::{
    lemma_identifier_alone_is_reference, lemma_number_alone_is_constant,
    lemma_number_before_identifier_is_refused, parse_spec,
};
use crate::parser::{parse, Expr, ExprView, ParserError, ParserErrorView};

verus! {

/// Why an expression has no value.
#[derive(Debug, PartialEq)]
pub enum ComputeError {
    /// The factorial of a negative number or of one with a fractional part.
    InvalidFactorial,
    /// An assignment to a constant, with its name.
    VariableIsConstant(String),
    /// A name that no variable has.
    UnrecognizedIdentifier(String),
    /// A name that no function has.
    UnrecognizedFunctionIdentifier(String),
    /// A node that stands for a truth value or a relation, or an arithmetic
    /// node with an operator that is none of `+ - * /`: these have no value.
    UnsupportedOperation,
}

/// A `ComputeError` with its name as a sequence of characters.
pub enum ComputeErrorView {
    InvalidFactorial,
    VariableIsConstant(Seq<char>),
    UnrecognizedIdentifier(Seq<char>),
    UnrecognizedFunctionIdentifier(Seq<char>),
    UnsupportedOperation,
}

impl View for ComputeError {
    type V = ComputeErrorView;

    open spec fn view(&self) -> ComputeErrorView {
        match self {
            ComputeError::InvalidFactorial => ComputeErrorView::InvalidFactorial,
            ComputeError::VariableIsConstant(name) => ComputeErrorView::VariableIsConstant(name@),
            ComputeError::UnrecognizedIdentifier(name) => ComputeErrorView::UnrecognizedIdentifier(
                name@,
            ),
            ComputeError::UnrecognizedFunctionIdentifier(name) =>
                ComputeErrorView::UnrecognizedFunctionIdentifier(name@),
            ComputeError::UnsupportedOperation => ComputeErrorView::UnsupportedOperation,
        }
    }
}

impl Clone for ComputeError {
    fn clone(&self) -> (r: ComputeError)
        ensures
            r@ == self@,
    {
        match self {
            ComputeError::InvalidFactorial => ComputeError::InvalidFactorial,
            ComputeError::VariableIsConstant(name) => ComputeError::VariableIsConstant(
                name.clone(),
            ),
            ComputeError::UnrecognizedIdentifier(name) => ComputeError::UnrecognizedIdentifier(
                name.clone(),
            ),
            ComputeError::UnrecognizedFunctionIdentifier(name) =>
                ComputeError::UnrecognizedFunctionIdentifier(name.clone()),
            ComputeError::UnsupportedOperation => ComputeError::UnsupportedOperation,
        }
    }
}

/// The stage of an evaluation that failed, with its error.
#[derive(Debug, PartialEq)]
pub enum EvalError<T> {
    LexerError(LexError),
    ParserError(ParserError<T>),
    ComputeError(ComputeError),
}

/// An `EvalError` by views.
pub enum EvalErrorView<T> {
    LexerError(LexError),
    ParserError(ParserErrorView<T>),
    ComputeError(ComputeErrorView),
}

impl<T> View for EvalError<T> {
    type V = EvalErrorView<T>;

    open spec fn view(&self) -> EvalErrorView<T> {
        match self {
            EvalError::LexerError(e) => EvalErrorView::LexerError(*e),
            EvalError::ParserError(e) => EvalErrorView::ParserError(e@),
            EvalError::ComputeError(e) => EvalErrorView::ComputeError(e@),
        }
    }
}

impl<T: Num> Clone for EvalError<T> {
    fn clone(&self) -> (r: EvalError<T>)
        ensures
            r@ == self@,
    {
        match self {
            EvalError::LexerError(e) => EvalError::LexerError(*e),
            EvalError::ParserError(e) => EvalError::ParserError(e.clone()),
            EvalError::ComputeError(e) => EvalError::ComputeError(e.clone()),
        }
    }
}

/// The variables by name: each with its value and whether it is constant.
pub type Variables<T> = Map<Seq<char>, (T, bool)>;

/// The name under which the last result is kept.
pub open spec fn ans_name() -> Seq<char> {
    seq!['a', 'n', 's']
}

/// Whether a function can be called on every number and its result depends
/// on its argument alone.
pub open spec fn is_pure<T, F: Fn(T) -> T>(f: F) -> bool {
    &&& forall|x: T| #[trigger] f.requires((x,))
    &&& forall|x: T, r1: T, r2: T| #[trigger]
        f.ensures((x,), r1) && #[trigger] f.ensures((x,), r2) ==> r1 == r2
}

/// What a function returns for an argument.
pub open spec fn applied<T, F: Fn(T) -> T>(f: F, x: T) -> T {
    choose|r: T| f.ensures((x,), r)
}

/// Whether one can count down from `factor`: taking one away gives something
/// smaller, and with it a lower rank, as the number type promises of every
/// such step.
pub open spec fn counts_down<T: Num>(factor: T) -> bool {
    let next = factor.spec_minus(T::spec_one());
    next.spec_less_than(&factor) && next.spec_rank() < factor.spec_rank()
}

/// The product `product * factor * (factor - 1) * ..`, taken while the factor
/// lies above one. It also ends where taking one away no longer gives a
/// smaller factor, as happens in a representation that has run out of
/// precision.
pub open spec fn descending_product<T: Num>(product: T, factor: T) -> T
    decreases factor.spec_rank(),
{
    if T::spec_one().spec_less_than(&factor) {
        if counts_down(factor) {
            descending_product(product.spec_times(factor), factor.spec_minus(T::spec_one()))
        } else {
            product.spec_times(factor)
        }
    } else {
        product
    }
}

/// The factorial of a value: an error below zero and off the integers, one
/// at zero and at one, the descending product elsewhere.
pub open spec fn factorial_of<T: Num>(value: T) -> Result<T, ComputeErrorView> {
    if value.spec_less_than(&T::spec_zero()) || !value.spec_is_integer() {
        Err(ComputeErrorView::InvalidFactorial)
    } else if value.spec_equals(&T::spec_zero()) || value.spec_equals(&T::spec_one()) {
        Ok(T::spec_one())
    } else {
        Ok(descending_product(value, value.spec_minus(T::spec_one())))
    }
}

/// What an arithmetic node makes of its two operands.
pub open spec fn binary_of<T: Num>(op: Operator, left: T, right: T) -> Result<
    T,
    ComputeErrorView,
> {
    match op {
        Operator::Plus => Ok(left.spec_plus(right)),
        Operator::Minus => Ok(left.spec_minus(right)),
        Operator::Star => Ok(left.spec_times(right)),
        Operator::Slash => Ok(left.spec_divide(right)),
        _ => Err(ComputeErrorView::UnsupportedOperation),
    }
}

/// The value of a tree and the variables after its evaluation.
///
/// Children are evaluated before their parent, the left before the right, and
/// the first error ends the evaluation; assignments made before it stay.
pub open spec fn compute_expr_spec<T: Num, F: Fn(T) -> T>(
    e: ExprView<T>,
    vars: Variables<T>,
    funcs: Map<Seq<char>, F>,
) -> (Result<T, ComputeErrorView>, Variables<T>)
    decreases e,
{
    match e {
        ExprView::BoolOp(..) | ExprView::Bool(_) | ExprView::BoolNot(_) | ExprView::BinCmp(..) => (
            Err(ComputeErrorView::UnsupportedOperation),
            vars,
        ),
        ExprView::Constant(n) => (Ok(n), vars),
        ExprView::Identifier(name) => if vars.contains_key(name) {
            (Ok(vars[name].0), vars)
        } else {
            (Err(ComputeErrorView::UnrecognizedIdentifier(name)), vars)
        },
        ExprView::Neg(a) => match compute_expr_spec(*a, vars, funcs) {
            (Ok(v), s) => (Ok(v.spec_negate()), s),
            (Err(e), s) => (Err(e), s),
        },
        ExprView::Abs(a) => match compute_expr_spec(*a, vars, funcs) {
            (Ok(v), s) => (Ok(v.spec_abs()), s),
            (Err(e), s) => (Err(e), s),
        },
        ExprView::Factorial(a) => match compute_expr_spec(*a, vars, funcs) {
            (Ok(v), s) => (factorial_of(v), s),
            (Err(e), s) => (Err(e), s),
        },
        ExprView::BinOp(op, a, b) => match compute_expr_spec(*a, vars, funcs) {
            (Ok(l), s1) => match compute_expr_spec(*b, s1, funcs) {
                (Ok(r), s2) => (binary_of(op, l, r), s2),
                (Err(e), s2) => (Err(e), s2),
            },
            (Err(e), s1) => (Err(e), s1),
        },
        ExprView::Pow(a, b) => match compute_expr_spec(*a, vars, funcs) {
            (Ok(l), s1) => match compute_expr_spec(*b, s1, funcs) {
                (Ok(r), s2) => (Ok(l.spec_pow(&r)), s2),
                (Err(e), s2) => (Err(e), s2),
            },
            (Err(e), s1) => (Err(e), s1),
        },
        ExprView::Function(name, a) => match compute_expr_spec(*a, vars, funcs) {
            (Ok(v), s) => if funcs.contains_key(name) {
                (Ok(applied(funcs[name], v)), s)
            } else {
                (Err(ComputeErrorView::UnrecognizedFunctionIdentifier(name)), s)
            },
            (Err(e), s) => (Err(e), s),
        },
        ExprView::Assignment(name, a) => match compute_expr_spec(*a, vars, funcs) {
            (Ok(v), s) => if s.contains_key(name) && s[name].1 {
                (Err(ComputeErrorView::VariableIsConstant(name)), s)
            } else {
                (Ok(v), s.insert(name, (v, false)))
            },
            (Err(e), s) => (Err(e), s),
        },
    }
}

/// The value of a whole tree and the variables afterwards: on success the
/// result is also bound to `ans`, as a constant, whatever `ans` was before.
pub open spec fn compute_spec<T: Num, F: Fn(T) -> T>(
    e: ExprView<T>,
    vars: Variables<T>,
    funcs: Map<Seq<char>, F>,
) -> (Result<T, ComputeErrorView>, Variables<T>) {
    match compute_expr_spec(e, vars, funcs) {
        (Ok(n), s) => (Ok(n), s.insert(ans_name(), (n, true))),
        (Err(e), s) => (Err(e), s),
    }
}

/// The value of a text and the variables afterwards: its tokens, their tree,
/// and the tree's value. The variables change only where a tree is computed.
pub open spec fn eval_spec<T: Num, F: Fn(T) -> T>(
    text: Seq<char>,
    vars: Variables<T>,
    funcs: Map<Seq<char>, F>,
) -> (Result<T, EvalErrorView<T>>, Variables<T>) {
    match lex_spec::<T>(text) {
        Ok(tokens) => match parse_spec(tokens) {
            Ok(tree) => match compute_spec(tree, vars, funcs) {
                (Ok(n), s) => (Ok(n), s),
                (Err(e), s) => (Err(EvalErrorView::ComputeError(e)), s),
            },
            Err(e) => (Err(EvalErrorView::ParserError(e)), vars),
        },
        Err(e) => (Err(EvalErrorView::LexerError(e)), vars),
    }
}

/// What `compute` returned, by views.
pub open spec fn computed_view<T>(r: Result<T, ComputeError>) -> Result<T, ComputeErrorView> {
    match r {
        Ok(n) => Ok(n),
        Err(e) => Err(e@),
    }
}

/// What `eval` returned, by views.
pub open spec fn evaluated_view<T>(r: Result<T, EvalError<T>>) -> Result<T, EvalErrorView<T>> {
    match r {
        Ok(n) => Ok(n),
        Err(e) => Err(e@),
    }
}

/// Computes expressions and keeps the variables and functions that they name.
#[verifier::reject_recursive_types(T)]
#[verifier::reject_recursive_types(F)]
pub struct Computer<T, F> {
    /// Each variable's value, and whether it is constant.
    pub variables: StringHashMap<(T, bool)>,
    /// The functions that expressions can call.
    pub functions: StringHashMap<F>,
}

/// The factorial of a value: an error below zero and off the integers, else
/// the product of the value and everything that counting down by one gives
/// above one. No product is too large for it: what becomes of one is the
/// number type's matter. Where the number type can count down no further,
/// the product ends.
pub fn factorial<T: Num>(value: T) -> (r: Result<T, ComputeError>)
    ensures
        computed_view(r) == factorial_of(value),
{
    if value.less_than(&T::zero()) || !value.is_integer() {
        Err(ComputeError::InvalidFactorial)
    } else if value.equals(&T::zero()) || value.equals(&T::one()) {
        Ok(T::one())
    } else {
        let mut factor = value.duplicate().minus(T::one());
        let mut product = value;
        while T::one().less_than(&factor)
            invariant
                factorial_of(value) == Ok::<T, ComputeErrorView>(
                    descending_product(value, value.spec_minus(T::spec_one())),
                ),
                descending_product(value, value.spec_minus(T::spec_one())) == descending_product(
                    product,
                    factor,
                ),
            decreases factor.spec_rank(),
        {
            let ghost before = product;
            product = product.times(factor.duplicate());
            let next = factor.duplicate().minus(T::one());
            if !next.less_than(&factor) {
                assert(descending_product(before, factor) == product);
                return Ok(product);
            }
            factor = next;
        }
        Ok(product)
    }
}

impl<T: Num, F: Fn(T) -> T> Computer<T, F> {
    /// Whether every function of the computer is pure.
    pub open spec fn wf(&self) -> bool {
        forall|name: Seq<char>| #[trigger]
            self.functions@.contains_key(name) ==> is_pure(self.functions@[name])
    }

    /// A computer without variables or functions.
    pub fn new() -> (r: Computer<T, F>)
        ensures
            r.variables@ == Map::<Seq<char>, (T, bool)>::empty(),
            r.functions@ == Map::<Seq<char>, F>::empty(),
            r.wf(),
    {
        Computer { variables: StringHashMap::new(), functions: StringHashMap::new() }
    }

    /// A computer with the usual names: the constants `pi` and `e`, and the
    /// functions `sqrt`, `sin`, `cos`, `tan` and `log10`. The caller supplies
    /// the values and the functions of its number type.
    pub fn with_defaults(pi: T, e: T, sqrt: F, sin: F, cos: F, tan: F, log10: F) -> (r: Computer<
        T,
        F,
    >)
        requires
            is_pure(sqrt),
            is_pure(sin),
            is_pure(cos),
            is_pure(tan),
            is_pure(log10),
        ensures
            r.variables@ == Map::<Seq<char>, (T, bool)>::empty().insert("pi"@, (pi, true)).insert(
                "e"@,
                (e, true),
            ),
            r.functions@ == Map::<Seq<char>, F>::empty().insert("sqrt"@, sqrt).insert(
                "sin"@,
                sin,
            ).insert("cos"@, cos).insert("tan"@, tan).insert("log10"@, log10),
            r.wf(),
    {
        let mut r: Computer<T, F> = Computer::new();
        r.set_variable(String::from_str("pi"), pi, true);
        r.set_variable(String::from_str("e"), e, true);
        r.set_function(String::from_str("sqrt"), sqrt);
        r.set_function(String::from_str("sin"), sin);
        r.set_function(String::from_str("cos"), cos);
        r.set_function(String::from_str("tan"), tan);
        r.set_function(String::from_str("log10"), log10);
        r
    }

    /// Binds a variable, whatever was bound to the name before: registering
    /// is not an assignment, and a constant does not stand in its way.
    pub fn set_variable(&mut self, name: String, value: T, constant: bool)
        ensures
            final(self).variables@ == old(self).variables@.insert(name@, (value, constant)),
            final(self).functions@ == old(self).functions@,
    {
        self.variables.insert(name, (value, constant));
    }

    /// Registers a function under a name, in place of any that had it.
    pub fn set_function(&mut self, name: String, function: F)
        requires
            old(self).wf(),
            is_pure(function),
        ensures
            final(self).functions@ == old(self).functions@.insert(name@, function),
            final(self).variables@ == old(self).variables@,
            final(self).wf(),
    {
        self.functions.insert(name, function);
    }

    fn compute_expr(&mut self, expr: &Expr<T>) -> (r: Result<T, ComputeError>)
        requires
            old(self).wf(),
        ensures
            final(self).functions@ == old(self).functions@,
            (computed_view(r), final(self).variables@) == compute_expr_spec(
                expr@,
                old(self).variables@,
                old(self).functions@,
            ),
        decreases expr,
    {
        match expr {
            Expr::BoolOp(..) | Expr::Bool(_) | Expr::BoolNot(_) | Expr::BinCmp(..) => Err(
                ComputeError::UnsupportedOperation,
            ),
            Expr::Constant(n) => Ok(n.duplicate()),
            Expr::Identifier(id) => match self.variables.get(id.as_str()) {
                Some(value) => Ok(value.0.duplicate()),
                None => Err(ComputeError::UnrecognizedIdentifier(id.clone())),
            },
            Expr::Neg(a) => match self.compute_expr(a) {
                Ok(v) => Ok(v.negate()),
                Err(e) => Err(e),
            },
            Expr::Abs(a) => match self.compute_expr(a) {
                Ok(v) => Ok(v.abs()),
                Err(e) => Err(e),
            },
            Expr::Factorial(a) => match self.compute_expr(a) {
                Ok(v) => factorial(v),
                Err(e) => Err(e),
            },
            Expr::BinOp(op, a, b) => {
                let left = match self.compute_expr(a) {
                    Ok(v) => v,
                    Err(e) => {
                        return Err(e);
                    },
                };
                let right = match self.compute_expr(b) {
                    Ok(v) => v,
                    Err(e) => {
                        return Err(e);
                    },
                };
                match op {
                    Operator::Plus => Ok(left.plus(right)),
                    Operator::Minus => Ok(left.minus(right)),
                    Operator::Star => Ok(left.times(right)),
                    Operator::Slash => Ok(left.divide(right)),
                    _ => Err(ComputeError::UnsupportedOperation),
                }
            },
            Expr::Pow(a, b) => {
                let base = match self.compute_expr(a) {
                    Ok(v) => v,
                    Err(e) => {
                        return Err(e);
                    },
                };
                let exponent = match self.compute_expr(b) {
                    Ok(v) => v,
                    Err(e) => {
                        return Err(e);
                    },
                };
                Ok(base.pow(&exponent))
            },
            Expr::Function(id, a) => {
                let value = match self.compute_expr(a) {
                    Ok(v) => v,
                    Err(e) => {
                        return Err(e);
                    },
                };
                match self.functions.get(id.as_str()) {
                    Some(function) => {
                        let result = function(value);
                        Ok(result)
                    },
                    None => Err(ComputeError::UnrecognizedFunctionIdentifier(id.clone())),
                }
            },
            Expr::Assignment(id, a) => {
                let value = match self.compute_expr(a) {
                    Ok(v) => v,
                    Err(e) => {
                        return Err(e);
                    },
                };
                let constant = match self.variables.get(id.as_str()) {
                    Some(binding) => binding.1,
                    None => false,
                };
                if constant {
                    return Err(ComputeError::VariableIsConstant(id.clone()));
                }
                self.variables.insert(id.clone(), (value.duplicate(), false));
                Ok(value)
            },
        }
    }

    /// Computes the value of a tree.
    ///
    /// Assignments in the tree change the variables, and stay where a later
    /// part of the tree fails. After a success the result is bound to `ans`
    /// as a constant; this one binding is made even though `ans` is constant.
    pub fn compute(&mut self, expr: &Expr<T>) -> (r: Result<T, ComputeError>)
        requires
            old(self).wf(),
        ensures
            final(self).wf(),
            final(self).functions@ == old(self).functions@,
            (computed_view(r), final(self).variables@) == compute_spec(
                expr@,
                old(self).variables@,
                old(self).functions@,
            ),
    {
        let val = self.compute_expr(expr);
        match &val {
            Ok(n) => {
                proof {
                    reveal_strlit("ans");
                    assert("ans"@ =~= ans_name());
                }
                self.variables.insert(String::from_str("ans"), (n.duplicate(), true));
            },
            _ => {},
        }
        val
    }

    /// Lexes, parses and computes a text in one step. The error says which of
    /// the three failed; the variables change only in the last.
    pub fn eval(&mut self, expr: &str) -> (r: Result<T, EvalError<T>>)
        requires
            old(self).wf(),
        ensures
            final(self).wf(),
            final(self).functions@ == old(self).functions@,
            (evaluated_view(r), final(self).variables@) == eval_spec(
                expr@,
                old(self).variables@,
                old(self).functions@,
            ),
    {
        match tokenize::<T>(expr) {
            Ok(tokens) => match parse(tokens.as_slice()) {
                Ok(ast) => match self.compute(&ast) {
                    Ok(num) => Ok(num),
                    Err(compute_err) => Err(EvalError::ComputeError(compute_err)),
                },
                Err(parser_err) => Err(EvalError::ParserError(parser_err)),
            },
            Err(lexer_err) => Err(EvalError::LexerError(lexer_err)),
        }
    }
}

/// Evaluation never changes a constant: a binding that is constant before a
/// tree is evaluated is there afterwards, with the same value, whether the
/// evaluation succeeds or fails.
pub proof fn lemma_constants_stay<T: Num, F: Fn(T) -> T>(
    e: ExprView<T>,
    vars: Variables<T>,
    funcs: Map<Seq<char>, F>,
    name: Seq<char>,
)
    requires
        vars.contains_key(name),
        vars[name].1,
    ensures
        compute_expr_spec(e, vars, funcs).1.contains_key(name),
        compute_expr_spec(e, vars, funcs).1[name] == vars[name],
    decreases e,
{
    match e {
        ExprView::Neg(a) | ExprView::Abs(a) | ExprView::Factorial(a) | ExprView::Function(
            _,
            a,
        ) | ExprView::Assignment(_, a) => {
            lemma_constants_stay(*a, vars, funcs, name);
        },
        ExprView::BinOp(_, a, b) | ExprView::Pow(a, b) => {
            lemma_constants_stay(*a, vars, funcs, name);
            lemma_constants_stay(*b, compute_expr_spec(*a, vars, funcs).1, funcs, name);
        },
        _ => {},
    }
}

/// An assignment to a constant never succeeds: where the right side has a
/// value the error names the constant, and the constant keeps its value.
pub proof fn lemma_assignment_to_constant_fails<T: Num, F: Fn(T) -> T>(
    name: Seq<char>,
    value: ExprView<T>,
    vars: Variables<T>,
    funcs: Map<Seq<char>, F>,
)
    requires
        vars.contains_key(name),
        vars[name].1,
    ensures
        compute_expr_spec(ExprView::Assignment(name, Box::new(value)), vars, funcs).0 is Err,
        compute_expr_spec(value, vars, funcs).0 is Ok ==> compute_expr_spec(
            ExprView::Assignment(name, Box::new(value)),
            vars,
            funcs,
        ).0 == Err::<T, ComputeErrorView>(ComputeErrorView::VariableIsConstant(name)),
        compute_expr_spec(ExprView::Assignment(name, Box::new(value)), vars, funcs).1[name]
            == vars[name],
{
    lemma_constants_stay(value, vars, funcs, name);
}

/// After a tree has been computed with success, `ans` is a constant that
/// holds the result: a reference to it gives the result again, and an
/// assignment to it fails.
pub proof fn lemma_ans_holds_last_result<T: Num, F: Fn(T) -> T>(
    e: ExprView<T>,
    vars: Variables<T>,
    funcs: Map<Seq<char>, F>,
    value: ExprView<T>,
)
    requires
        compute_spec(e, vars, funcs).0 is Ok,
    ensures
        compute_spec(e, vars, funcs).1[ans_name()] == (compute_spec(e, vars, funcs).0->Ok_0, true),
        compute_spec(ExprView::Identifier(ans_name()), compute_spec(e, vars, funcs).1, funcs)
            == compute_spec(e, vars, funcs),
        compute_spec(
            ExprView::Assignment(ans_name(), Box::new(value)),
            compute_spec(e, vars, funcs).1,
            funcs,
        ).0 is Err,
        compute_expr_spec(value, compute_spec(e, vars, funcs).1, funcs).0 is Ok ==> compute_spec(
            ExprView::Assignment(ans_name(), Box::new(value)),
            compute_spec(e, vars, funcs).1,
            funcs,
        ).0 == Err::<T, ComputeErrorView>(ComputeErrorView::VariableIsConstant(ans_name())),
{
    let after = compute_spec(e, vars, funcs).1;
    let n = compute_spec(e, vars, funcs).0->Ok_0;
    assert(after.insert(ans_name(), (n, true)) =~= after);
    lemma_assignment_to_constant_fails(ans_name(), value, after, funcs);
}

/// A decimal literal evaluates to the number that it denotes: a text of
/// digits and points alone that the number type reads as `n` has the value
/// `n`, which then is the last result.
pub proof fn lemma_literal_evaluates_to_itself<T: Num, F: Fn(T) -> T>(
    text: Seq<char>,
    n: T,
    vars: Variables<T>,
    funcs: Map<Seq<char>, F>,
)
    requires
        text.len() > 0,
        forall|i: int| 0 <= i < text.len() ==> is_number_char(#[trigger] text[i]),
        T::spec_from_flt64_str(text) == Some(n),
    ensures
        eval_spec(text, vars, funcs) == (
            Ok::<T, EvalErrorView<T>>(n),
            vars.insert(ans_name(), (n, true)),
        ),
{
    lemma_literal_is_one_token::<T>(text, n);
    lemma_number_alone_is_constant::<T>(n);
}

/// The text `ans`, evaluated directly after a success, gives that result
/// again and leaves the variables as they are.
pub proof fn lemma_ans_text_gives_last_result<T: Num, F: Fn(T) -> T>(
    text: Seq<char>,
    vars: Variables<T>,
    funcs: Map<Seq<char>, F>,
)
    requires
        eval_spec(text, vars, funcs).0 is Ok,
    ensures
        eval_spec(ans_name(), eval_spec(text, vars, funcs).1, funcs) == eval_spec(
            text,
            vars,
            funcs,
        ),
{
    let name = ans_name();
    assert(name.len() == 3 && name[0] == 'a' && name[1] == 'n' && name[2] == 's');
    lemma_word_is_one_token::<T>(name);
    assert(seq!['a', 'n', 'd'][2] == 'd');
    assert(word_token::<T>(name) == TokenView::<T>::Identifier(name));
    lemma_identifier_alone_is_reference::<T>(name);
    let tree = parse_spec(lex_spec::<T>(text)->Ok_0)->Ok_0;
    lemma_ans_holds_last_result(tree, vars, funcs, tree);
}

/// An assignment to a name that is not constant succeeds wherever its right
/// side has a value: the value is the result, and the name is bound to it as
/// a variable, whether it was bound before or not.
pub proof fn lemma_assignment_binds<T: Num, F: Fn(T) -> T>(
    name: Seq<char>,
    value: ExprView<T>,
    vars: Variables<T>,
    funcs: Map<Seq<char>, F>,
)
    requires
        compute_expr_spec(value, vars, funcs).0 is Ok,
        !(compute_expr_spec(value, vars, funcs).1.contains_key(name) && compute_expr_spec(
            value,
            vars,
            funcs,
        ).1[name].1),
    ensures
        compute_expr_spec(ExprView::Assignment(name, Box::new(value)), vars, funcs).0
            == compute_expr_spec(value, vars, funcs).0,
        compute_expr_spec(ExprView::Assignment(name, Box::new(value)), vars, funcs).1[name] == (
            compute_expr_spec(value, vars, funcs).0->Ok_0,
            false,
        ),
        compute_expr_spec(
            ExprView::Identifier(name),
            compute_expr_spec(ExprView::Assignment(name, Box::new(value)), vars, funcs).1,
            funcs,
        ).0 == compute_expr_spec(value, vars, funcs).0,
{
}

/// A call of a name that no function has fails with that name, wherever the
/// argument has a value.
pub proof fn lemma_unregistered_function_fails<T: Num, F: Fn(T) -> T>(
    name: Seq<char>,
    argument: ExprView<T>,
    vars: Variables<T>,
    funcs: Map<Seq<char>, F>,
)
    requires
        !funcs.contains_key(name),
        compute_expr_spec(argument, vars, funcs).0 is Ok,
    ensures
        compute_expr_spec(ExprView::Function(name, Box::new(argument)), vars, funcs).0 == Err::<
            T,
            ComputeErrorView,
        >(ComputeErrorView::UnrecognizedFunctionIdentifier(name)),
{
}

/// A reference to a name that no variable has fails with that name.
pub proof fn lemma_unbound_identifier_fails<T: Num, F: Fn(T) -> T>(
    name: Seq<char>,
    vars: Variables<T>,
    funcs: Map<Seq<char>, F>,
)
    requires
        !vars.contains_key(name),
    ensures
        compute_spec(ExprView::Identifier(name), vars, funcs) == (
            Err::<T, ComputeErrorView>(ComputeErrorView::UnrecognizedIdentifier(name)),
            vars,
        ),
{
}

/// The factorial fails exactly below zero and off the integers, and is one
/// at whatever equals zero or one.
pub proof fn lemma_factorial_domain<T: Num>(value: T)
    ensures
        factorial_of(value) is Err <==> (value.spec_less_than(&T::spec_zero())
            || !value.spec_is_integer()),
        factorial_of(value) is Err ==> factorial_of(value) == Err::<T, ComputeErrorView>(
            ComputeErrorView::InvalidFactorial,
        ),
        factorial_of(value) is Ok && (value.spec_equals(&T::spec_zero()) || value.spec_equals(
            &T::spec_one(),
        )) ==> factorial_of(value) == Ok::<T, ComputeErrorView>(T::spec_one()),
{
}

/// A failed evaluation of a text leaves `ans` as it was.
pub proof fn lemma_failure_keeps_ans<T: Num, F: Fn(T) -> T>(
    text: Seq<char>,
    vars: Variables<T>,
    funcs: Map<Seq<char>, F>,
)
    requires
        eval_spec(text, vars, funcs).0 is Err,
        vars.contains_key(ans_name()),
        vars[ans_name()].1,
    ensures
        eval_spec(text, vars, funcs).1.contains_key(ans_name()),
        eval_spec(text, vars, funcs).1[ans_name()] == vars[ans_name()],
{
    match lex_spec::<T>(text) {
        Ok(tokens) => match parse_spec(tokens) {
            Ok(tree) => {
                lemma_constants_stay(tree, vars, funcs, ans_name());
            },
            Err(_) => {},
        },
        Err(_) => {},
    }
}

/// A literal with a name written directly behind it, as in `2x`, is refused
/// before anything is computed: the error names the identifier, and the
/// variables stay as they are.
pub proof fn lemma_number_before_name_is_refused<T: Num, F: Fn(T) -> T>(
    text: Seq<char>,
    k: int,
    n: T,
    vars: Variables<T>,
    funcs: Map<Seq<char>, F>,
)
    requires
        0 < k < text.len(),
        forall|i: int| 0 <= i < k ==> is_number_char(#[trigger] text[i]),
        is_word_start(text[k]),
        forall|i: int| k <= i < text.len() ==> is_word_char(#[trigger] text[i]),
        T::spec_from_flt64_str(text.subrange(0, k)) == Some(n),
        word_token::<T>(text.subrange(k, text.len() as int)) is Identifier,
    ensures
        eval_spec(text, vars, funcs) == (
            Err::<T, EvalErrorView<T>>(
                EvalErrorView::ParserError(
                    ParserErrorView::UnexpectedNumber(
                        TokenView::Identifier(text.subrange(k, text.len() as int)),
                    ),
                ),
            ),
            vars,
        ),
{
    lemma_literal_then_word::<T>(text, k, n);
    let name = word_token::<T>(text.subrange(k, text.len() as int));
    let tokens = seq![TokenView::Number(n), name];
    assert(tokens[0] is Number && tokens[1] is Identifier);
    lemma_number_before_identifier_is_refused(tokens, 0);
}

} // verus!
