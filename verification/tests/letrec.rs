use eopl::{Value, parse_and_eval};

const SAMPLE_PROGRAM: &str = "
let square = proc (x) *(x, x)
in letrec sum_squares(n) =
       if zero?(n)
       then 0
       else +((square n), (sum_squares -(n, 1)))
   in -((sum_squares 4), 5)
";

#[test]
fn evaluates_the_ported_kotlin_sample() {
    let value = parse_and_eval(SAMPLE_PROGRAM).expect("sample program should evaluate");
    assert_eq!(value, Value::Number(25));
}

#[test]
fn evaluates_recursive_factorial_with_letrec() {
    let source = r#"
        letrec fact(n) =
            if zero?(n)
            then 1
            else *(n,(fact -(n,1)))
        in (fact 5)
    "#;

    let value = parse_and_eval(source).expect("letrec program should evaluate");
    assert_eq!(value, Value::Number(120));
}
