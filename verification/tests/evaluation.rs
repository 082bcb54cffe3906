use eopl::{Error, EvalError, Expr, LexError, ParseError, Token, Value, eval, parse_and_eval};

fn run(source: &str) -> Result<Value, Error> {
    parse_and_eval(source)
}

fn number(source: &str) -> i32 {
    match run(source) {
        Ok(Value::Number(n)) => n,
        other => panic!("expected a number from {source:?}, got {other:?}"),
    }
}

fn eval_error(source: &str) -> EvalError {
    match run(source) {
        Err(Error::Eval(e)) => e,
        other => panic!("expected an evaluation error from {source:?}, got {other:?}"),
    }
}

#[test]
fn arithmetic_on_numbers() {
    assert_eq!(number("+(2, 3)"), 5);
    assert_eq!(number("-(2, 3)"), -1);
    assert_eq!(number("*(-(0, 4), 3)"), -12);
    assert_eq!(number("/(7, 2)"), 3);
}

#[test]
fn division_rounds_toward_zero() {
    assert_eq!(number("/(-(0, 7), 2)"), -3);
    assert_eq!(number("/(7, -(0, 2))"), -3);
    assert_eq!(number("/(-(0, 7), -(0, 2))"), 3);
    assert_eq!(number("/(0, 5)"), 0);
}

#[test]
fn zero_test_gives_booleans() {
    assert_eq!(run("zero?(0)").unwrap(), Value::Bool(true));
    assert_eq!(run("zero?(-(1, 2))").unwrap(), Value::Bool(false));
}

#[test]
fn if_chooses_a_branch() {
    assert_eq!(number("if zero?(0) then 1 else 2"), 1);
    assert_eq!(number("if zero?(1) then 1 else 2"), 2);
}

#[test]
fn let_binds_and_shadows() {
    assert_eq!(number("let x = 5 in let y = 7 in -(y, x)"), 2);
    assert_eq!(number("let x = 1 in let x = 2 in x"), 2);
}

#[test]
fn let_means_applying_a_procedure() {
    assert_eq!(number("let x = +(1, 2) in *(x, x)"), number("(proc (x) *(x, x) +(1, 2))"));
}

#[test]
fn procedures_close_over_their_definition_environment() {
    assert_eq!(number("let x = 1 in let f = proc (y) +(x, y) in let x = 100 in (f 1)"), 2);
}

#[test]
fn curried_procedures() {
    assert_eq!(number("let add = proc (a) proc (b) +(a, b) in ((add 3) 4)"), 7);
}

#[test]
fn letrec_binds_a_recursive_procedure() {
    assert_eq!(number("letrec double(x) = if zero?(x) then 0 else +((double -(x, 1)), 2) in (double 6)"), 12);
    // The recursive name is visible in its own body and in the letrec body only.
    assert_eq!(eval_error("let g = letrec f(x) = x in f in (g f)"), EvalError::UnboundVariable("f".to_string()));
}

#[test]
fn unbound_variables_are_errors() {
    assert_eq!(eval_error("+(x, 1)"), EvalError::UnboundVariable("x".to_string()));
}

#[test]
fn if_test_must_be_boolean() {
    assert_eq!(eval_error("if 1 then 2 else 3"), EvalError::IfTestNotBoolean(Value::Number(1)));
}

#[test]
fn arithmetic_operands_must_be_numbers() {
    match eval_error("+(zero?(0), 1)") {
        EvalError::ArithmeticOperandsNotNumbers(Value::Bool(true), Value::Number(1)) => {}
        other => panic!("unexpected error {other:?}"),
    }
}

#[test]
fn left_operand_errors_come_first() {
    assert_eq!(eval_error("+(a, b)"), EvalError::UnboundVariable("a".to_string()));
}

#[test]
fn division_by_zero_is_an_error() {
    assert_eq!(eval_error("/(1, 0)"), EvalError::DivisionByZero);
}

#[test]
fn overflow_is_an_error() {
    assert_eq!(eval_error("+(2147483647, 1)"), EvalError::ArithmeticOverflow);
    assert_eq!(eval_error("*(65536, 65536)"), EvalError::ArithmeticOverflow);
    assert_eq!(
        eval_error("let min = -(-(0, 2147483647), 1) in /(min, -(0, 1))"),
        EvalError::ArithmeticOverflow
    );
    assert_eq!(number("-(-(0, 2147483647), 1)"), i32::MIN);
}

#[test]
fn zero_test_expects_a_number() {
    assert_eq!(eval_error("zero?(zero?(1))"), EvalError::ZeroTestNotNumber(Value::Bool(false)));
}

#[test]
fn only_procedures_can_be_called() {
    assert_eq!(eval_error("(1 2)"), EvalError::CallOperatorNotProcedure(Value::Number(1)));
}

#[test]
fn operand_errors_come_before_the_operator_check() {
    assert_eq!(eval_error("(1 y)"), EvalError::UnboundVariable("y".to_string()));
}

#[test]
fn eval_takes_an_expression() {
    let expr = Expr::Arithmetic {
        op: eopl::ArithOp::Mul,
        left: Box::new(Expr::Number(6)),
        right: Box::new(Expr::Number(7)),
    };
    assert_eq!(eval(&expr).unwrap(), Value::Number(42));
}

#[test]
fn pipeline_errors_name_their_stage() {
    assert!(matches!(run("\u{7}"), Err(Error::Lex(LexError::UnsupportedControlCharacter('\u{7}')))));
    assert!(matches!(run(""), Err(Error::Parse(ParseError::NoInput))));
    assert!(matches!(run("1 )"), Err(Error::Parse(ParseError::UnexpectedTrailingToken(Token::RightParen)))));
    assert!(matches!(run("q"), Err(Error::Eval(EvalError::UnboundVariable(_)))));
}

#[test]
fn values_show_like_the_interpreter_prints_them() {
    assert_eq!(Value::Number(-42).to_string(), "-42");
    assert_eq!(Value::Number(0).to_string(), "0");
    assert_eq!(Value::Number(i32::MIN).to_string(), "-2147483648");
    assert_eq!(Value::Bool(true).to_string(), "true");
    assert_eq!(Value::Bool(false).to_string(), "false");
    assert_eq!(run("proc (x) x").unwrap().to_string(), "<procedure>");
}

#[test]
fn procedures_equal_nothing_not_even_themselves() {
    let p = run("proc (x) x").unwrap();
    assert_ne!(p, p.clone());
    assert_ne!(p, Value::Number(0));
    assert_eq!(Value::Number(3), Value::Number(3));
    assert_ne!(Value::Number(3), Value::Bool(true));
    assert_eq!(Value::Bool(false), Value::Bool(false));
}
