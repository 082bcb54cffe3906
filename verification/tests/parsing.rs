use eopl::{ArithOp, Expr, MissingPart, ParseError, Token, parse, tokenize};

fn parse_text(source: &str) -> Result<Expr, ParseError> {
    parse(&tokenize(source).unwrap())
}

fn var(name: &str) -> Box<Expr> {
    Box::new(Expr::Variable(name.to_string()))
}

fn num(n: i32) -> Box<Expr> {
    Box::new(Expr::Number(n))
}

#[test]
fn parses_every_construct() {
    let expr = parse_text(
        "letrec f(n) = if zero?(n) then 0 else *(n, (f -(n, 1))) in let g = proc (y) /(y, 2) in +((f 3), (g 8))",
    )
    .unwrap();
    let expected = Expr::LetRec {
        name: "f".to_string(),
        param: "n".to_string(),
        func_body: Box::new(Expr::If {
            test: Box::new(Expr::Zero(var("n"))),
            then_branch: num(0),
            else_branch: Box::new(Expr::Arithmetic {
                op: ArithOp::Mul,
                left: var("n"),
                right: Box::new(Expr::Call {
                    operator: var("f"),
                    operand: Box::new(Expr::Arithmetic { op: ArithOp::Sub, left: var("n"), right: num(1) }),
                }),
            }),
        }),
        body: Box::new(Expr::Let {
            name: "g".to_string(),
            value: Box::new(Expr::Proc {
                param: "y".to_string(),
                body: Box::new(Expr::Arithmetic { op: ArithOp::Div, left: var("y"), right: num(2) }),
            }),
            body: Box::new(Expr::Arithmetic {
                op: ArithOp::Add,
                left: Box::new(Expr::Call { operator: var("f"), operand: num(3) }),
                right: Box::new(Expr::Call { operator: var("g"), operand: num(8) }),
            }),
        }),
    };
    assert_eq!(expr, expected);
}

#[test]
fn parsing_printed_tokens_gives_back_the_expression() {
    // The tokens of `let x = -(7, 2) in (proc (y) y x)`, written out by hand.
    let tokens = vec![
        Token::Let,
        Token::Identifier("x".to_string()),
        Token::Assignment,
        Token::Minus,
        Token::LeftParen,
        Token::Number(7),
        Token::Comma,
        Token::Number(2),
        Token::RightParen,
        Token::In,
        Token::LeftParen,
        Token::Procedure,
        Token::LeftParen,
        Token::Identifier("y".to_string()),
        Token::RightParen,
        Token::Identifier("y".to_string()),
        Token::Identifier("x".to_string()),
        Token::RightParen,
    ];
    let expected = Expr::Let {
        name: "x".to_string(),
        value: Box::new(Expr::Arithmetic { op: ArithOp::Sub, left: num(7), right: num(2) }),
        body: Box::new(Expr::Call {
            operator: Box::new(Expr::Proc { param: "y".to_string(), body: var("y") }),
            operand: var("x"),
        }),
    };
    assert_eq!(parse(&tokens), Ok(expected));
}

#[test]
fn no_tokens_is_no_input() {
    assert_eq!(parse(&[]), Err(ParseError::NoInput));
}

#[test]
fn trailing_tokens_are_refused() {
    assert_eq!(parse_text("1 2"), Err(ParseError::UnexpectedTrailingToken(Token::Number(2))));
}

#[test]
fn missing_parts_are_named() {
    let cases = [
        ("let x =", MissingPart::LetBinding),
        ("let x = 1 in", MissingPart::LetBody),
        ("if", MissingPart::IfTest),
        ("if a then", MissingPart::ThenBranch),
        ("if a then b else", MissingPart::ElseBranch),
        ("+(", MissingPart::ArithmeticLeft),
        ("+(1,", MissingPart::ArithmeticRight),
        ("zero?(", MissingPart::ZeroArgument),
        ("(", MissingPart::CallOperator),
        ("(f", MissingPart::CallOperand),
        ("proc (x)", MissingPart::ProcedureBody),
        ("letrec f(x) =", MissingPart::LetRecFunctionBody),
        ("letrec f(x) = x in", MissingPart::LetRecBody),
    ];
    for (source, part) in cases {
        assert_eq!(parse_text(source), Err(ParseError::Missing(part)), "{source}");
    }
}

#[test]
fn tokens_that_cannot_start_an_expression() {
    assert_eq!(parse_text(")"), Err(ParseError::UnexpectedToken(Token::RightParen)));
    assert_eq!(parse_text("let x = in 1"), Err(ParseError::UnexpectedToken(Token::In)));
}

#[test]
fn identifiers_are_required_where_names_go() {
    assert_eq!(
        parse_text("let 5 = 1 in 2"),
        Err(ParseError::ExpectedIdentifier(Some(Token::Number(5))))
    );
    assert_eq!(parse_text("proc ("), Err(ParseError::ExpectedIdentifier(None)));
}

#[test]
fn fixed_tokens_are_required_where_they_go() {
    assert_eq!(
        parse_text("let x 5"),
        Err(ParseError::Expected { expected: Token::Assignment, found: Some(Token::Number(5)) })
    );
    assert_eq!(
        parse_text("if a b"),
        Err(ParseError::Expected {
            expected: Token::Then,
            found: Some(Token::Identifier("b".to_string())),
        })
    );
    assert_eq!(
        parse_text("-(1 2)"),
        Err(ParseError::Expected { expected: Token::Comma, found: Some(Token::Number(2)) })
    );
    assert_eq!(
        parse_text("zero?(1"),
        Err(ParseError::Expected { expected: Token::RightParen, found: None })
    );
    assert_eq!(
        parse_text("* 1"),
        Err(ParseError::Expected { expected: Token::LeftParen, found: Some(Token::Number(1)) })
    );
}

#[test]
fn first_error_wins() {
    // The missing `in` is met before anything after it.
    assert_eq!(
        parse_text("let x = 1 2 )"),
        Err(ParseError::Expected { expected: Token::In, found: Some(Token::Number(2)) })
    );
}
