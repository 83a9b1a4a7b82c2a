use rsc::computer::{factorial, ComputeError, Computer, EvalError};
use rsc::lexer::{tokenize, Keyword, LexError, Operator, Token};
use rsc::number::Num;
use rsc::parser::{parse, parse_no_preprocess, preprocess, Expr, ParserError};

#[derive(Debug, Clone, Copy, PartialEq, PartialOrd)]
struct Flt(f64);

impl Num for Flt {
    fn zero() -> Self {
        Flt(0.0)
    }
    fn one() -> Self {
        Flt(1.0)
    }
    fn is_integer(&self) -> bool {
        self.0.fract() == 0.0
    }
    fn abs(&self) -> Self {
        Flt(self.0.abs())
    }
    fn pow(&self, exponent: &Self) -> Self {
        Flt(self.0.powf(exponent.0))
    }
    fn from_flt64_str(s: &str) -> Option<Self> {
        s.parse::<f64>().ok().map(Flt)
    }
    fn negate(self) -> Self {
        Flt(-self.0)
    }
    fn plus(self, rhs: Self) -> Self {
        Flt(self.0 + rhs.0)
    }
    fn minus(self, rhs: Self) -> Self {
        Flt(self.0 - rhs.0)
    }
    fn times(self, rhs: Self) -> Self {
        Flt(self.0 * rhs.0)
    }
    fn divide(self, rhs: Self) -> Self {
        Flt(self.0 / rhs.0)
    }
    fn less_than(&self, rhs: &Self) -> bool {
        self.0 < rhs.0
    }
    fn equals(&self, rhs: &Self) -> bool {
        self.0 == rhs.0
    }
    fn duplicate(&self) -> Self {
        *self
    }
}

type Unary = fn(Flt) -> Flt;

fn sqrt(n: Flt) -> Flt {
    Flt(n.0.sqrt())
}

fn sin(n: Flt) -> Flt {
    Flt(n.0.sin())
}

fn cos(n: Flt) -> Flt {
    Flt(n.0.cos())
}

fn tan(n: Flt) -> Flt {
    Flt(n.0.tan())
}

fn log10(n: Flt) -> Flt {
    Flt(n.0.log10())
}

fn seeded() -> Computer<Flt, Unary> {
    Computer::with_defaults(
        Flt(std::f64::consts::PI),
        Flt(std::f64::consts::E),
        sqrt,
        sin,
        cos,
        tan,
        log10,
    )
}

fn num(n: f64) -> Expr<Flt> {
    Expr::Constant(Flt(n))
}

fn id(name: &str) -> Expr<Flt> {
    Expr::Identifier(String::from(name))
}

fn bx(e: Expr<Flt>) -> Box<Expr<Flt>> {
    Box::new(e)
}

fn tree(text: &str) -> Expr<Flt> {
    parse(&tokenize::<Flt>(text).unwrap()).unwrap()
}

fn parse_err(text: &str) -> ParserError<Flt> {
    parse(&tokenize::<Flt>(text).unwrap()).unwrap_err()
}

#[test]
fn tokenize_reads_numbers_and_operators() {
    let tokens = tokenize::<Flt>("1 + .5").unwrap();
    assert_eq!(
        tokens,
        vec![
            Token::Number(Flt(1.0)),
            Token::Operator(Operator::Plus),
            Token::Number(Flt(0.5)),
        ]
    );
}

#[test]
fn tokenize_empty_text_has_no_tokens() {
    assert_eq!(tokenize::<Flt>("").unwrap(), vec![]);
    assert_eq!(tokenize::<Flt>(" \t\r\n").unwrap(), vec![]);
}

#[test]
fn tokenize_reads_every_operator() {
    let tokens = tokenize::<Flt>("+-*/^!|()= == > >= < <= !=").unwrap();
    let expected = vec![
        Operator::Plus,
        Operator::Minus,
        Operator::Star,
        Operator::Slash,
        Operator::Caret,
        Operator::Exclamation,
        Operator::Pipe,
        Operator::LParen,
        Operator::RParen,
        Operator::Equals,
        Operator::DoubleEquals,
        Operator::Greater,
        Operator::GreaterEqual,
        Operator::Lesser,
        Operator::LesserEqual,
        Operator::NotEquals,
    ];
    let expected: Vec<Token<Flt>> = expected.into_iter().map(Token::Operator).collect();
    assert_eq!(tokens, expected);
}

#[test]
fn tokenize_prefers_two_character_operators() {
    assert_eq!(
        tokenize::<Flt>(">==").unwrap(),
        vec![
            Token::Operator(Operator::GreaterEqual),
            Token::Operator(Operator::Equals),
        ]
    );
}

#[test]
fn tokenize_tells_keywords_from_identifiers() {
    let tokens = tokenize::<Flt>("and or true false andy _x").unwrap();
    assert_eq!(
        tokens,
        vec![
            Token::Keyword(Keyword::And),
            Token::Keyword(Keyword::Or),
            Token::Keyword(Keyword::True),
            Token::Keyword(Keyword::False),
            Token::Identifier(String::from("andy")),
            Token::Identifier(String::from("_x")),
        ]
    );
}

#[test]
fn tokenize_lets_words_go_on_over_digits() {
    assert_eq!(
        tokenize::<Flt>("log10").unwrap(),
        vec![Token::Identifier(String::from("log10"))]
    );
    assert_eq!(
        tokenize::<Flt>("x2 _1a").unwrap(),
        vec![
            Token::Identifier(String::from("x2")),
            Token::Identifier(String::from("_1a")),
        ]
    );
    assert_eq!(
        tokenize::<Flt>("true1 or2").unwrap(),
        vec![
            Token::Identifier(String::from("true1")),
            Token::Identifier(String::from("or2")),
        ]
    );
}

#[test]
fn tokenize_starts_a_number_at_a_digit() {
    assert_eq!(
        tokenize::<Flt>("2x3").unwrap(),
        vec![Token::Number(Flt(2.0)), Token::Identifier(String::from("x3"))]
    );
    assert_eq!(
        tokenize::<Flt>("log 10").unwrap(),
        vec![Token::Identifier(String::from("log")), Token::Number(Flt(10.0))]
    );
    assert_eq!(
        tokenize::<Flt>("x.5").unwrap(),
        vec![Token::Identifier(String::from("x")), Token::Number(Flt(0.5))]
    );
}

#[test]
fn tokenize_rejects_unknown_character() {
    assert_eq!(
        tokenize::<Flt>("2 $ 3"),
        Err(LexError { character: '$', position: 2 })
    );
}

#[test]
fn tokenize_counts_positions_in_characters() {
    assert_eq!(
        tokenize::<Flt>("é"),
        Err(LexError { character: 'é', position: 0 })
    );
    assert_eq!(
        tokenize::<Flt>("1 + é"),
        Err(LexError { character: 'é', position: 4 })
    );
}

#[test]
fn tokenize_rejects_number_the_type_refuses() {
    assert_eq!(
        tokenize::<Flt>("7 + 1.2.3"),
        Err(LexError { character: '1', position: 4 })
    );
    assert_eq!(tokenize::<Flt>("."), Err(LexError { character: '.', position: 0 }));
}

#[test]
fn parse_respects_precedence() {
    assert_eq!(
        tree("1 + 2 * 3"),
        Expr::BinOp(
            Operator::Plus,
            bx(num(1.0)),
            bx(Expr::BinOp(Operator::Star, bx(num(2.0)), bx(num(3.0)))),
        )
    );
}

#[test]
fn parse_folds_to_the_left() {
    assert_eq!(
        tree("1 - 2 - 3"),
        Expr::BinOp(
            Operator::Minus,
            bx(Expr::BinOp(Operator::Minus, bx(num(1.0)), bx(num(2.0)))),
            bx(num(3.0)),
        )
    );
    assert_eq!(
        tree("2 ^ 3 ^ 2"),
        Expr::Pow(bx(Expr::Pow(bx(num(2.0)), bx(num(3.0)))), bx(num(2.0)))
    );
}

#[test]
fn parse_implicit_multiplication_with_exponent() {
    assert_eq!(
        tree("2(3)^2"),
        Expr::BinOp(
            Operator::Star,
            bx(num(2.0)),
            bx(Expr::Pow(bx(num(3.0)), bx(num(2.0)))),
        )
    );
}

#[test]
fn parse_identifier_forms() {
    assert_eq!(tree("x"), id("x"));
    assert_eq!(tree("f(1)"), Expr::Function(String::from("f"), bx(num(1.0))));
    assert_eq!(tree("f 1"), Expr::Function(String::from("f"), bx(num(1.0))));
    assert_eq!(
        tree("sin cos x"),
        Expr::Function(
            String::from("sin"),
            bx(Expr::Function(String::from("cos"), bx(id("x")))),
        )
    );
    assert_eq!(tree("x = 1 + 2"), Expr::Assignment(
        String::from("x"),
        bx(Expr::BinOp(Operator::Plus, bx(num(1.0)), bx(num(2.0)))),
    ));
}

#[test]
fn parse_drops_identifier_before_bars() {
    assert_eq!(tree("f|2|"), Expr::Abs(bx(num(2.0))));
    assert_eq!(tree("|-2|"), Expr::Abs(bx(Expr::Neg(bx(num(2.0))))));
    assert_eq!(tree("|(x)|"), Expr::Abs(bx(id("x"))));
    assert_eq!(tree("|x|2||"), Expr::Abs(bx(Expr::Abs(bx(num(2.0))))));
    assert_eq!(parse_err("|x|"), ParserError::ExpectedFactor(None));
}

#[test]
fn parse_factorial_binds_tighter_than_power() {
    assert_eq!(
        tree("2^3!"),
        Expr::Pow(bx(num(2.0)), bx(Expr::Factorial(bx(num(3.0)))))
    );
    assert_eq!(tree("-1!"), Expr::Factorial(bx(Expr::Neg(bx(num(1.0))))));
}

#[test]
fn parse_boolean_rules() {
    assert_eq!(
        tree("true and false or !true"),
        Expr::BoolOp(
            Keyword::And,
            bx(Expr::Bool(true)),
            bx(Expr::BoolOp(
                Keyword::Or,
                bx(Expr::Bool(false)),
                bx(Expr::BoolNot(bx(Expr::Bool(true)))),
            )),
        )
    );
    assert_eq!(
        tree("1 + 2 >= 3"),
        Expr::BinCmp(
            Operator::GreaterEqual,
            bx(Expr::BinOp(Operator::Plus, bx(num(1.0)), bx(num(2.0)))),
            bx(num(3.0)),
        )
    );
    assert_eq!(
        tree("1 < 2 != 3"),
        Expr::BinCmp(
            Operator::NotEquals,
            bx(Expr::BinCmp(Operator::Lesser, bx(num(1.0)), bx(num(2.0)))),
            bx(num(3.0)),
        )
    );
}

#[test]
fn parse_reports_missing_parenthesis() {
    assert_eq!(parse_err("(1 + 2"), ParserError::ExpectedClosingParenthesis);
    assert_eq!(parse_err("(1"), ParserError::ExpectedClosingParenthesis);
    assert_eq!(parse_err("(1 2)"), ParserError::ExpectedClosingParenthesis);
    assert_eq!(parse_err("f(1"), ParserError::ExpectedClosingParenthesis);
    assert_eq!(parse_err("2(3"), ParserError::ExpectedClosingParenthesis);
}

#[test]
fn parse_keeps_inner_error_before_closing_parenthesis() {
    assert_eq!(
        parse_err("(*)"),
        ParserError::ExpectedFactor(Some(Token::Operator(Operator::Star)))
    );
}

#[test]
fn parse_reports_missing_pipe() {
    assert_eq!(parse_err("|-2"), ParserError::ExpectedClosingPipe);
    assert_eq!(parse_err("f|2)"), ParserError::ExpectedClosingPipe);
}

#[test]
fn parse_reports_missing_factor() {
    assert_eq!(parse_err(""), ParserError::ExpectedFactor(None));
    assert_eq!(parse_err("1 +"), ParserError::ExpectedFactor(None));
    assert_eq!(
        parse_err("1 + *"),
        ParserError::ExpectedFactor(Some(Token::Operator(Operator::Star)))
    );
    assert_eq!(
        parse_err("and"),
        ParserError::ExpectedFactor(Some(Token::Keyword(Keyword::And)))
    );
}

#[test]
fn parse_reports_trailing_tokens() {
    assert_eq!(
        parse_err("1 2 )"),
        ParserError::UnexpectedToken(
            num(1.0),
            vec![Token::Number(Flt(2.0)), Token::Operator(Operator::RParen)],
        )
    );
    assert_eq!(
        parse_err("1 == 2"),
        ParserError::UnexpectedToken(
            num(1.0),
            vec![Token::Operator(Operator::DoubleEquals), Token::Number(Flt(2.0))],
        )
    );
}

#[test]
fn preprocess_finds_first_number_before_identifier() {
    let tokens = tokenize::<Flt>("1 + 2x + 3y").unwrap();
    assert_eq!(
        preprocess(&tokens),
        Some(ParserError::UnexpectedNumber(Token::Identifier(String::from("x"))))
    );
    let fine = tokenize::<Flt>("x 2 + 1").unwrap();
    assert_eq!(preprocess(&fine), None);
}

#[test]
fn parse_reports_first_error_inside_parentheses() {
    assert_eq!(parse_err("("), ParserError::ExpectedFactor(None));
    assert_eq!(parse_err("(1 +"), ParserError::ExpectedFactor(None));
    assert_eq!(
        parse_err("(*"),
        ParserError::ExpectedFactor(Some(Token::Operator(Operator::Star)))
    );
    assert_eq!(parse_err("((1"), ParserError::ExpectedClosingParenthesis);
    assert_eq!(parse_err("(|1)"), ParserError::ExpectedClosingPipe);
    assert_eq!(parse_err("f("), ParserError::ExpectedFactor(None));
    assert_eq!(parse_err("2("), ParserError::ExpectedFactor(None));
}

#[test]
fn parse_no_preprocess_skips_only_the_check() {
    let tokens = tokenize::<Flt>("2x").unwrap();
    assert_eq!(
        parse_no_preprocess(&tokens),
        Err(ParserError::UnexpectedToken(
            num(2.0),
            vec![Token::Identifier(String::from("x"))],
        ))
    );
    assert_eq!(
        parse(&tokens),
        Err(ParserError::UnexpectedNumber(Token::Identifier(String::from("x"))))
    );
    let two = tokenize::<Flt>("1 2").unwrap();
    assert_eq!(
        parse_no_preprocess(&two),
        Err(ParserError::UnexpectedToken(num(1.0), vec![Token::Number(Flt(2.0))]))
    );
    assert_eq!(parse_no_preprocess(&two), parse(&two));
}

#[test]
fn parse_no_preprocess_agrees_with_parse_without_ambiguity() {
    for text in ["1 + 2 * 3", "f(x)^2", "(1", "", "a = |-2|!", "1 )", "sin cos x", "true and"] {
        let tokens = tokenize::<Flt>(text).unwrap();
        assert_eq!(preprocess(&tokens), None);
        assert_eq!(parse_no_preprocess(&tokens), parse(&tokens));
    }
    let tokens = tokenize::<Flt>("2 sin(1)").unwrap();
    assert_eq!(
        parse_no_preprocess(&tokens),
        Err(ParserError::UnexpectedToken(
            num(2.0),
            vec![
                Token::Identifier(String::from("sin")),
                Token::Operator(Operator::LParen),
                Token::Number(Flt(1.0)),
                Token::Operator(Operator::RParen),
            ],
        ))
    );
}

#[test]
fn eval_returns_literal() {
    let mut c = seeded();
    assert_eq!(c.eval("42"), Ok(Flt(42.0)));
    assert_eq!(c.eval(".34"), Ok(Flt(0.34)));
    assert_eq!(c.eval("2.21"), Ok(Flt(2.21)));
    assert_eq!(c.eval("007."), Ok(Flt(7.0)));
}

#[test]
fn eval_assigns_and_reassigns() {
    let mut c = seeded();
    assert_eq!(c.eval("a = 2"), Ok(Flt(2.0)));
    assert_eq!(c.eval("a * 3"), Ok(Flt(6.0)));
    assert_eq!(c.eval("a = 5"), Ok(Flt(5.0)));
    assert_eq!(c.eval("a"), Ok(Flt(5.0)));
}

#[test]
fn eval_protects_constants() {
    let mut c = seeded();
    assert_eq!(c.eval("pi"), Ok(Flt(std::f64::consts::PI)));
    assert_eq!(
        c.eval("pi = 1"),
        Err(EvalError::ComputeError(ComputeError::VariableIsConstant(String::from("pi"))))
    );
    assert_eq!(c.eval("pi"), Ok(Flt(std::f64::consts::PI)));
}

#[test]
fn eval_keeps_last_result_in_ans() {
    let mut c = seeded();
    assert_eq!(
        c.eval("ans"),
        Err(EvalError::ComputeError(ComputeError::UnrecognizedIdentifier(String::from("ans"))))
    );
    assert_eq!(c.eval("3 * 4"), Ok(Flt(12.0)));
    assert_eq!(c.eval("ans"), Ok(Flt(12.0)));
    assert_eq!(c.eval("ans + 1"), Ok(Flt(13.0)));
    assert_eq!(c.eval("ans"), Ok(Flt(13.0)));
    assert_eq!(
        c.eval("ans = 1"),
        Err(EvalError::ComputeError(ComputeError::VariableIsConstant(String::from("ans"))))
    );
    assert_eq!(c.eval("ans"), Ok(Flt(13.0)));
}

#[test]
fn eval_failure_leaves_ans() {
    let mut c = seeded();
    assert_eq!(c.eval("7"), Ok(Flt(7.0)));
    assert!(c.eval("nothing").is_err());
    assert!(c.eval("1 +").is_err());
    assert!(c.eval("#").is_err());
    assert_eq!(c.eval("ans"), Ok(Flt(7.0)));
}

#[test]
fn eval_rejects_number_before_identifier() {
    let mut c = seeded();
    assert_eq!(
        c.eval("2x"),
        Err(EvalError::ParserError(ParserError::UnexpectedNumber(Token::Identifier(
            String::from("x")
        ))))
    );
    assert_eq!(
        c.eval("2pi"),
        Err(EvalError::ParserError(ParserError::UnexpectedNumber(Token::Identifier(
            String::from("pi")
        ))))
    );
}

#[test]
fn eval_factorial() {
    let mut c = seeded();
    assert_eq!(c.eval("5!"), Ok(Flt(120.0)));
    assert_eq!(c.eval("0!"), Ok(Flt(1.0)));
    assert_eq!(c.eval("1!"), Ok(Flt(1.0)));
    assert_eq!(c.eval("2!"), Ok(Flt(2.0)));
    assert_eq!(c.eval("3!"), Ok(Flt(6.0)));
    assert_eq!(
        c.eval("-1!"),
        Err(EvalError::ComputeError(ComputeError::InvalidFactorial))
    );
    assert_eq!(
        c.eval("2.5!"),
        Err(EvalError::ComputeError(ComputeError::InvalidFactorial))
    );
}

#[test]
fn factorial_ends_where_counting_down_stalls() {
    assert_eq!(factorial(Flt(1e24)), Ok(Flt(1e24 * 1e24)));
    let mut c = seeded();
    assert_eq!(
        c.eval("1000000000000000000000000!"),
        Ok(Flt(1e24 * 1e24))
    );
}

#[test]
fn factorial_of_small_values() {
    assert_eq!(factorial(Flt(0.0)), Ok(Flt(1.0)));
    assert_eq!(factorial(Flt(1.0)), Ok(Flt(1.0)));
    assert_eq!(factorial(Flt(4.0)), Ok(Flt(24.0)));
    assert_eq!(factorial(Flt(10.0)), Ok(Flt(3628800.0)));
    assert_eq!(factorial(Flt(-2.0)), Err(ComputeError::InvalidFactorial));
    assert_eq!(factorial(Flt(0.5)), Err(ComputeError::InvalidFactorial));
}

#[test]
fn eval_power_and_implicit_multiplication() {
    let mut c = seeded();
    assert_eq!(c.eval("(2+3)^2"), Ok(Flt(25.0)));
    assert_eq!(c.eval("2(3)"), Ok(Flt(6.0)));
    assert_eq!(c.eval("2(3)(4)"), Ok(Flt(24.0)));
    assert_eq!(c.eval("2(3)^2"), Ok(Flt(18.0)));
    assert_eq!(c.eval("4^.5"), Ok(Flt(2.0)));
    assert_eq!(c.eval("2^-1"), Ok(Flt(0.5)));
}

#[test]
fn eval_functions() {
    let mut c = seeded();
    assert_eq!(c.eval("sqrt(9)"), Ok(Flt(3.0)));
    assert_eq!(c.eval("sqrt 16"), Ok(Flt(4.0)));
    assert_eq!(c.eval("cos sin 0"), Ok(Flt(1.0)));
    assert_eq!(
        c.eval("foo(1)"),
        Err(EvalError::ComputeError(ComputeError::UnrecognizedFunctionIdentifier(
            String::from("foo")
        )))
    );
}

#[test]
fn eval_arithmetic() {
    let mut c = seeded();
    assert_eq!(c.eval("7 - 2 * 3"), Ok(Flt(1.0)));
    assert_eq!(c.eval("7 / 2"), Ok(Flt(3.5)));
    assert_eq!(c.eval("-3 + 1"), Ok(Flt(-2.0)));
    assert_eq!(c.eval("|1 - 4|"), Ok(Flt(3.0)));
    assert_eq!(c.eval("1 / 0"), Ok(Flt(f64::INFINITY)));
}

#[test]
fn eval_unbound_identifier() {
    let mut c = seeded();
    assert_eq!(
        c.eval("x + 1"),
        Err(EvalError::ComputeError(ComputeError::UnrecognizedIdentifier(String::from("x"))))
    );
}

#[test]
fn eval_reports_the_stage() {
    let mut c = seeded();
    assert_eq!(
        c.eval("1 ? 2"),
        Err(EvalError::LexerError(LexError { character: '?', position: 2 }))
    );
    assert_eq!(
        c.eval("(1"),
        Err(EvalError::ParserError(ParserError::ExpectedClosingParenthesis))
    );
}

#[test]
fn eval_boolean_nodes_are_unsupported() {
    let mut c = seeded();
    assert_eq!(
        c.eval("true"),
        Err(EvalError::ComputeError(ComputeError::UnsupportedOperation))
    );
    assert_eq!(
        c.eval("1 < 2"),
        Err(EvalError::ComputeError(ComputeError::UnsupportedOperation))
    );
    assert_eq!(
        c.eval("true and false"),
        Err(EvalError::ComputeError(ComputeError::UnsupportedOperation))
    );
    assert_eq!(
        c.eval("!true"),
        Err(EvalError::ComputeError(ComputeError::UnsupportedOperation))
    );
}

#[test]
fn compute_rejects_foreign_operator_in_arithmetic_node() {
    let mut c = seeded();
    let e = Expr::BinOp(Operator::Caret, bx(num(1.0)), bx(num(2.0)));
    assert_eq!(c.compute(&e), Err(ComputeError::UnsupportedOperation));
}

#[test]
fn compute_keeps_assignments_made_before_an_error() {
    let mut c = seeded();
    assert_eq!(
        c.eval("(a = 2) + nothing"),
        Err(EvalError::ComputeError(ComputeError::UnrecognizedIdentifier(String::from(
            "nothing"
        ))))
    );
    assert_eq!(c.eval("a"), Ok(Flt(2.0)));
}

#[test]
fn compute_binds_ans_as_constant() {
    let mut c: Computer<Flt, Unary> = Computer::new();
    assert_eq!(c.compute(&num(4.0)), Ok(Flt(4.0)));
    assert_eq!(c.variables.get("ans"), Some(&(Flt(4.0), true)));
    assert_eq!(c.compute(&num(5.0)), Ok(Flt(5.0)));
    assert_eq!(c.variables.get("ans"), Some(&(Flt(5.0), true)));
}

#[test]
fn set_variable_overrides_constants() {
    let mut c = seeded();
    c.set_variable(String::from("pi"), Flt(3.0), false);
    assert_eq!(c.eval("pi"), Ok(Flt(3.0)));
    assert_eq!(c.eval("pi = 4"), Ok(Flt(4.0)));
    c.set_variable(String::from("k"), Flt(9.0), true);
    assert_eq!(
        c.eval("k = 1"),
        Err(EvalError::ComputeError(ComputeError::VariableIsConstant(String::from("k"))))
    );
}

#[test]
fn set_function_replaces_a_function() {
    let mut c = seeded();
    c.set_function(String::from("sqrt"), cos);
    assert_eq!(c.eval("sqrt(0)"), Ok(Flt(1.0)));
}

#[test]
fn with_defaults_knows_the_usual_names() {
    let mut c = seeded();
    assert_eq!(c.variables.len(), 2);
    assert_eq!(c.functions.len(), 5);
    assert_eq!(c.variables.get("pi"), Some(&(Flt(std::f64::consts::PI), true)));
    assert_eq!(c.variables.get("e"), Some(&(Flt(std::f64::consts::E), true)));
    assert_eq!(c.eval("e"), Ok(Flt(std::f64::consts::E)));
    assert!(c.functions.get("log10").is_some());
    assert!(c.functions.get("log").is_none());
    assert!(c.functions.get("sqrt").is_some());
    assert!(c.functions.get("sin").is_some());
    assert!(c.functions.get("cos").is_some());
    assert!(c.functions.get("tan").is_some());
    assert_eq!(c.eval("log10(1000)"), Ok(Flt(3.0)));
    assert_eq!(c.eval("log10(100)"), Ok(Flt(2.0)));
    assert_eq!(c.eval("log10 100"), Ok(Flt(2.0)));
    assert_eq!(
        c.eval("log(100)"),
        Err(EvalError::ComputeError(ComputeError::UnrecognizedFunctionIdentifier(
            String::from("log")
        )))
    );
    assert_eq!(c.eval("tan(0)"), Ok(Flt(0.0)));
    assert_eq!(c.eval("sin(0)"), Ok(Flt(0.0)));
    assert_eq!(c.eval("cos(0)"), Ok(Flt(1.0)));
    assert_eq!(
        c.eval("e = 2"),
        Err(EvalError::ComputeError(ComputeError::VariableIsConstant(String::from("e"))))
    );
}

#[test]
fn new_computer_is_empty() {
    let mut c: Computer<Flt, Unary> = Computer::new();
    assert!(c.variables.is_empty());
    assert!(c.functions.is_empty());
    assert_eq!(
        c.eval("pi"),
        Err(EvalError::ComputeError(ComputeError::UnrecognizedIdentifier(String::from("pi"))))
    );
}

#[test]
fn replace_identifier_then_compute() {
    let mut ast = tree("x^2 * 4");
    let count = ast.replace(&id("x"), &num(20.0), false);
    assert_eq!(count, 1);
    let mut c = seeded();
    assert_eq!(c.compute(&ast), Ok(Flt(1600.0)));
}

#[test]
fn replace_counts_every_match() {
    let mut ast = tree("x * x + -x");
    assert_eq!(ast.replace(&id("x"), &num(2.0), false), 3);
    assert_eq!(ast, tree("2 * 2 + -2"));
    assert_eq!(ast.replace(&id("x"), &num(2.0), false), 0);
    assert_eq!(ast, tree("2 * 2 + -2"));
}

#[test]
fn replace_by_variant_ignores_fields() {
    let mut ast = tree("x + y");
    assert_eq!(ast.replace(&id("anything"), &num(1.0), true), 2);
    assert_eq!(ast, tree("1 + 1"));
}

#[test]
fn replace_stops_at_a_match() {
    let mut ast = tree("(x + 1) * 2");
    let pattern = tree("x + 1");
    let replacement = tree("x + 1 + x");
    assert_eq!(ast.replace(&pattern, &replacement, false), 1);
    assert_eq!(ast, tree("(x + 1 + x) * 2"));
    let mut whole = tree("1 + 2");
    assert_eq!(whole.replace(&tree("3 * 4"), &num(0.0), true), 1);
    assert_eq!(whole, num(0.0));
}

#[test]
fn replace_does_not_enter_other_nodes() {
    let mut ast = tree("|(x)| + x! + (y = x) + f(x)");
    assert_eq!(ast.replace(&id("x"), &num(1.0), false), 1);
    assert_eq!(ast, tree("|(x)| + x! + (y = x) + f(1)"));
}

#[test]
fn parsing_twice_gives_the_same_tree() {
    let text = "a = sqrt(2)^2 (3 + |(x)|)! / -4";
    let first = parse(&tokenize::<Flt>(text).unwrap());
    let second = parse(&tokenize::<Flt>(text).unwrap());
    assert!(first.is_ok());
    assert_eq!(first, second);
}

#[test]
fn same_compares_trees() {
    assert!(tree("1 + x").same(&tree("1 + x")));
    assert!(!tree("1 + x").same(&tree("1 + y")));
    assert!(!tree("1 + x").same(&tree("1 - x")));
    assert!(tree("1 + x").same_kind(&tree("2 * 3")));
    assert!(!tree("1 + x").same_kind(&tree("2 ^ 3")));
}

#[test]
fn duplicate_copies_a_tree() {
    let t = tree("a = f(2)^|(x)|! + 1 < 2");
    assert_eq!(t.duplicate(), t);
    let tok: Token<Flt> = Token::Identifier(String::from("abc"));
    assert_eq!(tok.duplicate(), tok);
}

#[test]
fn clone_copies_values() {
    let t = tree("f(2) * -x");
    assert_eq!(t.clone(), t);
    let tok: Token<Flt> = Token::Number(Flt(2.5));
    assert_eq!(tok.clone(), tok);
    let e = parse_err("1 2 3");
    assert_eq!(e.clone(), e);
    let f = parse_err("*");
    assert_eq!(f.clone(), f);
    let c = ComputeError::VariableIsConstant(String::from("pi"));
    assert_eq!(c.clone(), c);
    let v: EvalError<Flt> = EvalError::ParserError(parse_err("(1"));
    assert_eq!(v.clone(), v);
}

#[test]
fn count_matches_counts_what_replace_would_replace() {
    let ast = tree("x * x + -x + |(x)|");
    assert_eq!(ast.count_matches(&id("x"), false), Some(3));
    assert_eq!(ast.count_matches(&id("y"), false), Some(0));
    assert_eq!(ast.count_matches(&id("y"), true), Some(3));
    assert_eq!(ast.count_matches(&tree("1 + 1"), true), Some(1));
}

#[test]
fn try_replace_replaces_as_replace_does() {
    let mut ast = tree("x^2 * 4");
    assert_eq!(ast.try_replace(&id("x"), &num(20.0), false), Some(1));
    assert_eq!(ast, tree("20^2 * 4"));
    assert_eq!(ast.try_replace(&id("x"), &num(20.0), false), Some(0));
    assert_eq!(ast, tree("20^2 * 4"));
    let mut c = seeded();
    assert_eq!(c.compute(&ast), Ok(Flt(1600.0)));
}

#[test]
fn identifiers_with_digits_are_variables() {
    let mut c = seeded();
    assert_eq!(c.eval("x1 = 3"), Ok(Flt(3.0)));
    assert_eq!(c.eval("x1 * x1"), Ok(Flt(9.0)));
    assert_eq!(
        c.eval("2x1"),
        Err(EvalError::ParserError(ParserError::UnexpectedNumber(Token::Identifier(
            String::from("x1")
        ))))
    );
}
