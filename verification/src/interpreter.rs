use vstd::prelude::*;

use std::rc::Rc;

use vstd::arithmetic::div_mod::{lemma_fundamental_div_mod, lemma_mod_pos_bound};
use vstd::math::abs;
use vstd::std_specs::cmp::PartialEqSpec;
use vstd::string::StringExecFns;

use crate::ast::{ArithOp, Expr, ExprModel};
use crate::lexer::{
    LexErrorModel,
    all_ascii_digits,
    classify_spec,
    digits_value,
    keyword_token,
    lemma_fixed_token_text,
    parse_i32_spec,
    str_eq,
};
use crate::token::TokenModel;

verus! {

// ---------------------------------------------------------------------------
// Runtime values and environments

/// A runtime value: a number, a boolean, or a procedure with its environment.
#[derive(Debug)]
pub enum Value {
    Number(i32),
    Bool(bool),
    Procedure(Rc<Procedure>),
}

/// A closure: one parameter, a body, and the environment it was made in.
#[derive(Debug)]
pub struct Procedure {
    param: String,
    body: Expr,
    env: Rc<Env>,
}

/// An environment: a chain of bindings, the innermost first.  `ExtendRec`
/// binds a name to a procedure whose environment is that binding itself.
#[derive(Debug)]
pub(crate) enum Env {
    Empty,
    Extend { name: String, value: Value, saved: Rc<Env> },
    ExtendRec { name: String, param: String, body: Expr, saved: Rc<Env> },
}

/// Why an evaluation failed.
#[derive(Debug, PartialEq)]
pub enum EvalError {
    /// The variable is bound nowhere in the environment.
    UnboundVariable(String),
    /// The test of an `if` gave this non-boolean value.
    IfTestNotBoolean(Value),
    /// An arithmetic operator got these operands, not both numbers.
    ArithmeticOperandsNotNumbers(Value, Value),
    /// The divisor of `/` was zero.
    DivisionByZero,
    /// The result of an arithmetic operator does not fit in an `i32`.
    ArithmeticOverflow,
    /// `zero?` got this non-number.
    ZeroTestNotNumber(Value),
    /// The operator of a call gave this non-procedure.
    CallOperatorNotProcedure(Value),
    /// Evaluation nested deeper than the depth limit.
    DepthExceeded,
}

/// The mathematical value of a runtime value.
pub enum ValueModel {
    Number(i32),
    Bool(bool),
    Procedure { param: Seq<char>, body: ExprModel, env: Box<EnvModel> },
}

/// The mathematical value of an environment.
pub enum EnvModel {
    Empty,
    Extend { name: Seq<char>, value: Box<ValueModel>, saved: Box<EnvModel> },
    ExtendRec { name: Seq<char>, param: Seq<char>, body: ExprModel, saved: Box<EnvModel> },
}

/// The mathematical value of an evaluation error.
pub enum EvalErrorModel {
    UnboundVariable(Seq<char>),
    IfTestNotBoolean(ValueModel),
    ArithmeticOperandsNotNumbers(ValueModel, ValueModel),
    DivisionByZero,
    ArithmeticOverflow,
    ZeroTestNotNumber(ValueModel),
    CallOperatorNotProcedure(ValueModel),
    DepthExceeded,
}

impl Value {
    pub open spec fn model(&self) -> ValueModel
        decreases self, 0int,
    {
        match self {
            Value::Number(n) => ValueModel::Number(*n),
            Value::Bool(b) => ValueModel::Bool(*b),
            Value::Procedure(p) => (**p).model(),
        }
    }
}

impl Procedure {
    /// The procedure as a value: always a `ValueModel::Procedure`, made of its
    /// parameter, body and environment.
    pub open spec fn model(&self) -> ValueModel
        decreases self, 1int,
    {
        ValueModel::Procedure {
            param: self.param_model(),
            body: self.body_model(),
            env: Box::new(self.env_model()),
        }
    }

    /// The name of the parameter.
    pub closed spec fn param_model(&self) -> Seq<char> {
        self.param@
    }

    /// The body.
    pub closed spec fn body_model(&self) -> ExprModel {
        self.body.model()
    }

    /// The environment that the procedure was made in.
    pub closed spec fn env_model(&self) -> EnvModel
        decreases self, 0int,
    {
        (*self.env).model()
    }
}

impl Env {
    pub(crate) open spec fn model(&self) -> EnvModel
        decreases self, 0int,
    {
        match self {
            Env::Empty => EnvModel::Empty,
            Env::Extend { name, value, saved } => EnvModel::Extend {
                name: name@,
                value: Box::new(value.model()),
                saved: Box::new((**saved).model()),
            },
            Env::ExtendRec { name, param, body, saved } => EnvModel::ExtendRec {
                name: name@,
                param: param@,
                body: body.model(),
                saved: Box::new((**saved).model()),
            },
        }
    }
}

impl EvalError {
    pub open spec fn model(&self) -> EvalErrorModel {
        match self {
            EvalError::UnboundVariable(x) => EvalErrorModel::UnboundVariable(x@),
            EvalError::IfTestNotBoolean(v) => EvalErrorModel::IfTestNotBoolean(v.model()),
            EvalError::ArithmeticOperandsNotNumbers(l, r) => EvalErrorModel::ArithmeticOperandsNotNumbers(l.model(), r.model()),
            EvalError::DivisionByZero => EvalErrorModel::DivisionByZero,
            EvalError::ArithmeticOverflow => EvalErrorModel::ArithmeticOverflow,
            EvalError::ZeroTestNotNumber(v) => EvalErrorModel::ZeroTestNotNumber(v.model()),
            EvalError::CallOperatorNotProcedure(v) => EvalErrorModel::CallOperatorNotProcedure(v.model()),
            EvalError::DepthExceeded => EvalErrorModel::DepthExceeded,
        }
    }
}

/// The model of what an evaluation returns.
pub open spec fn eval_result_model(
    r: Result<Value, EvalError>,
) -> Result<ValueModel, EvalErrorModel> {
    match r {
        Ok(v) => Ok(v.model()),
        Err(e) => Err(e.model()),
    }
}

impl Clone for Procedure {
    fn clone(&self) -> (r: Self)
        ensures
            r == *self,
    {
        Procedure { param: self.param.clone(), body: self.body.clone(), env: Rc::clone(&self.env) }
    }
}

impl Clone for Value {
    fn clone(&self) -> (r: Self)
        ensures
            r == *self,
    {
        match self {
            Value::Number(n) => Value::Number(*n),
            Value::Bool(b) => Value::Bool(*b),
            Value::Procedure(p) => Value::Procedure(Rc::clone(p)),
        }
    }
}

// ---------------------------------------------------------------------------
// The semantics

/// The value bound to `name` in `env`, the innermost binding first; a
/// recursive binding gives its procedure, closed over that binding.
pub open spec fn lookup_spec(env: EnvModel, name: Seq<char>) -> Option<ValueModel>
    decreases env,
{
    match env {
        EnvModel::Empty => None,
        EnvModel::Extend { name: bound, value, saved } => if bound == name {
            Some(*value)
        } else {
            lookup_spec(*saved, name)
        },
        EnvModel::ExtendRec { name: bound, param, body, saved } => if bound == name {
            Some(ValueModel::Procedure { param, body, env: Box::new(env) })
        } else {
            lookup_spec(*saved, name)
        },
    }
}

/// Rust's integer division, which rounds toward zero.
pub open spec fn trunc_div(a: int, b: int) -> int {
    let q: int = abs(a) as int / abs(b) as int;
    if (a < 0) == (b < 0) {
        q
    } else {
        -q
    }
}

/// `trunc_div` is the quotient that `checked_div` computes.
proof fn lemma_trunc_div(a: int, b: int)
    requires
        b != 0,
    ensures
        trunc_div(a, b) == (if a == 0 {
            0
        } else if a > 0 && b > 0 {
            a / b
        } else if a < 0 && b < 0 {
            (a * -1) / (b * -1)
        } else if a < 0 {
            ((a * -1) / b) * -1
        } else {
            (a / (b * -1)) * -1
        }),
{
    if a == 0 {
        assert(0int / abs(b) as int == 0) by (nonlinear_arith)
            requires
                b != 0,
        ;
    }
}

/// A number as a value, or overflow when it does not fit in an `i32`.
pub open spec fn checked_number(n: int) -> Result<ValueModel, EvalErrorModel> {
    if i32::MIN <= n <= i32::MAX {
        Ok(ValueModel::Number(n as i32))
    } else {
        Err(EvalErrorModel::ArithmeticOverflow)
    }
}

/// Applying an arithmetic operator to two evaluated operands.
pub open spec fn arith_spec(op: ArithOp, left: ValueModel, right: ValueModel) -> Result<
    ValueModel,
    EvalErrorModel,
> {
    match (left, right) {
        (ValueModel::Number(a), ValueModel::Number(b)) => match op {
            ArithOp::Add => checked_number(a + b),
            ArithOp::Sub => checked_number(a - b),
            ArithOp::Mul => checked_number(a * b),
            ArithOp::Div => if b == 0 {
                Err(EvalErrorModel::DivisionByZero)
            } else {
                checked_number(trunc_div(a as int, b as int))
            },
        },
        _ => Err(EvalErrorModel::ArithmeticOperandsNotNumbers(left, right)),
    }
}

/// Evaluating `e` in `env` with at most `fuel` nested evaluations: `None` when
/// the evaluation nests deeper than that, else its value or its first error.
/// Operands are evaluated left to right, and the first error is the result.
pub open spec fn eval_spec(e: ExprModel, env: EnvModel, fuel: nat) -> Option<
    Result<ValueModel, EvalErrorModel>,
>
    decreases fuel,
{
    if fuel == 0 {
        None
    } else {
        let f = (fuel - 1) as nat;
        match e {
            ExprModel::Number(n) => Some(Ok(ValueModel::Number(n))),
            ExprModel::Variable(x) => Some(
                match lookup_spec(env, x) {
                    Some(v) => Ok(v),
                    None => Err(EvalErrorModel::UnboundVariable(x)),
                },
            ),
            ExprModel::Let { name, value, body } => match eval_spec(*value, env, f) {
                Some(Ok(v)) => eval_spec(
                    *body,
                    EnvModel::Extend { name, value: Box::new(v), saved: Box::new(env) },
                    f,
                ),
                other => other,
            },
            ExprModel::If { test, then_branch, else_branch } => match eval_spec(*test, env, f) {
                Some(Ok(ValueModel::Bool(true))) => eval_spec(*then_branch, env, f),
                Some(Ok(ValueModel::Bool(false))) => eval_spec(*else_branch, env, f),
                Some(Ok(other)) => Some(Err(EvalErrorModel::IfTestNotBoolean(other))),
                other => other,
            },
            ExprModel::Arithmetic { op, left, right } => match eval_spec(*left, env, f) {
                Some(Ok(l)) => match eval_spec(*right, env, f) {
                    Some(Ok(r)) => Some(arith_spec(op, l, r)),
                    other => other,
                },
                other => other,
            },
            ExprModel::Zero(arg) => match eval_spec(*arg, env, f) {
                Some(Ok(ValueModel::Number(n))) => Some(Ok(ValueModel::Bool(n == 0))),
                Some(Ok(other)) => Some(Err(EvalErrorModel::ZeroTestNotNumber(other))),
                other => other,
            },
            ExprModel::Proc { param, body } => Some(
                Ok(ValueModel::Procedure { param, body: *body, env: Box::new(env) }),
            ),
            ExprModel::Call { operator, operand } => match eval_spec(*operator, env, f) {
                Some(Ok(p)) => match eval_spec(*operand, env, f) {
                    Some(Ok(a)) => match p {
                        ValueModel::Procedure { param, body, env: saved } => eval_spec(
                            body,
                            EnvModel::Extend { name: param, value: Box::new(a), saved },
                            f,
                        ),
                        other => Some(Err(EvalErrorModel::CallOperatorNotProcedure(other))),
                    },
                    other => other,
                },
                other => other,
            },
            ExprModel::LetRec { name, param, func_body, body } => eval_spec(
                *body,
                EnvModel::ExtendRec { name, param, body: *func_body, saved: Box::new(env) },
                f,
            ),
        }
    }
}

/// The result of an evaluation, with running out of depth as an error.
pub open spec fn eval_outcome(m: Option<Result<ValueModel, EvalErrorModel>>) -> Result<
    ValueModel,
    EvalErrorModel,
> {
    match m {
        Some(r) => r,
        None => Err(EvalErrorModel::DepthExceeded),
    }
}

/// How deeply `eval` lets evaluations nest.
pub const EVAL_DEPTH_LIMIT: u64 = 0xffff_ffff_ffff_ffff;

// ---------------------------------------------------------------------------
// Laws of the semantics

/// Facts about the quotient rounded toward zero: its remainder is smaller than
/// the divisor and has the dividend's sign, and of two `i32`s it fits in an
/// `i32` except for `i32::MIN / -1`.
proof fn lemma_trunc_div_props(a: int, b: int)
    requires
        b != 0,
        i32::MIN <= a <= i32::MAX,
        i32::MIN <= b <= i32::MAX,
    ensures
        abs(a - trunc_div(a, b) * b) < abs(b),
        a - trunc_div(a, b) * b == 0 || ((a - trunc_div(a, b) * b < 0) == (a < 0)),
        (i32::MIN <= trunc_div(a, b) <= i32::MAX) <==> !(a == i32::MIN && b == -1),
{
    let x: int = abs(a) as int;
    let y: int = abs(b) as int;
    let q0 = x / y;
    let r0 = x % y;
    lemma_fundamental_div_mod(x, y);
    lemma_mod_pos_bound(x, y);
    assert(x == y * q0 + r0);
    assert(0 <= q0) by (nonlinear_arith)
        requires
            x == y * q0 + r0,
            0 <= r0 < y,
            0 <= x,
    ;
    assert(q0 <= x) by (nonlinear_arith)
        requires
            x == y * q0 + r0,
            0 <= r0,
            1 <= y,
            0 <= q0,
    ;
    assert(y >= 2 ==> 2 * q0 <= x) by (nonlinear_arith)
        requires
            x == y * q0 + r0,
            0 <= r0,
            0 <= q0,
    ;
    assert(y == 1 ==> q0 == x) by (nonlinear_arith)
        requires
            x == y * q0 + r0,
            0 <= r0 < y,
    ;
    let q = trunc_div(a, b);
    if a >= 0 && b > 0 {
        assert(q == q0);
        assert(a - q * b == r0) by (nonlinear_arith)
            requires
                q == q0,
                b == y,
                a == x,
                x == y * q0 + r0,
        ;
    } else if a >= 0 {
        assert(q == -q0);
        assert(a - q * b == r0) by (nonlinear_arith)
            requires
                q == -q0,
                b == -y,
                a == x,
                x == y * q0 + r0,
        ;
    } else if b > 0 {
        assert(q == -q0);
        assert(a - q * b == -r0) by (nonlinear_arith)
            requires
                q == -q0,
                b == y,
                a == -x,
                x == y * q0 + r0,
        ;
    } else {
        assert(q == q0);
        assert(a - q * b == -r0) by (nonlinear_arith)
            requires
                q == q0,
                b == -y,
                a == -x,
                x == y * q0 + r0,
        ;
    }
}

/// Arithmetic on two numbers: `+`, `-` (left minus right) and `*` give the
/// exact sum, difference and product when it fits in an `i32`, and overflow
/// otherwise; `/` fails on a zero divisor, overflows only for `i32::MIN / -1`,
/// and otherwise gives the quotient rounded toward zero: the `q` whose
/// remainder `a - q * b` is smaller than `b` and has the sign of `a`.
pub proof fn lemma_eval_arithmetic_numbers(
    op: ArithOp,
    left: ExprModel,
    right: ExprModel,
    env: EnvModel,
    fuel: nat,
    a: i32,
    b: i32,
)
    requires
        fuel >= 1,
        eval_spec(left, env, (fuel - 1) as nat) == Some(
            Ok::<ValueModel, EvalErrorModel>(ValueModel::Number(a)),
        ),
        eval_spec(right, env, (fuel - 1) as nat) == Some(
            Ok::<ValueModel, EvalErrorModel>(ValueModel::Number(b)),
        ),
    ensures
        ({
            let r = eval_spec(
                ExprModel::Arithmetic { op, left: Box::new(left), right: Box::new(right) },
                env,
                fuel,
            );
            let exact: int = match op {
                ArithOp::Add => a + b,
                ArithOp::Sub => a - b,
                ArithOp::Mul => a * b,
                ArithOp::Div => 0,
            };
            &&& op != ArithOp::Div ==> r == if i32::MIN <= exact <= i32::MAX {
                Some(Ok::<ValueModel, EvalErrorModel>(ValueModel::Number(exact as i32)))
            } else {
                Some(Err::<ValueModel, EvalErrorModel>(EvalErrorModel::ArithmeticOverflow))
            }
            &&& op == ArithOp::Div && b == 0 ==> r == Some(
                Err::<ValueModel, EvalErrorModel>(EvalErrorModel::DivisionByZero),
            )
            &&& op == ArithOp::Div && a == i32::MIN && b == -1 ==> r == Some(
                Err::<ValueModel, EvalErrorModel>(EvalErrorModel::ArithmeticOverflow),
            )
            &&& op == ArithOp::Div && b != 0 && !(a == i32::MIN && b == -1) ==> (r matches Some(
                Ok(ValueModel::Number(q)),
            ) && abs(a - q * b) < abs(b as int) && (a - q * b == 0 || ((a - q * b < 0) == (a
                < 0))))
        }),
{
    if b != 0 {
        lemma_trunc_div_props(a as int, b as int);
    }
}

/// `letrec f(p) = e in b` evaluates `b` in an environment that answers `f`
/// with the procedure of `p` and `e`, closed over that same environment (so
/// that `e` can call `f` again), and answers every other name as the
/// enclosing environment does.
pub proof fn lemma_eval_letrec_scope(
    name: Seq<char>,
    param: Seq<char>,
    func_body: ExprModel,
    body: ExprModel,
    env: EnvModel,
    fuel: nat,
)
    requires
        fuel >= 1,
    ensures
        exists|inner: EnvModel|
            {
                &&& eval_spec(
                    ExprModel::LetRec {
                        name,
                        param,
                        func_body: Box::new(func_body),
                        body: Box::new(body),
                    },
                    env,
                    fuel,
                ) == #[trigger] eval_spec(body, inner, (fuel - 1) as nat)
                &&& lookup_spec(inner, name) == Some(
                    ValueModel::Procedure { param, body: func_body, env: Box::new(inner) },
                )
                &&& forall|x: Seq<char>| x != name ==> lookup_spec(inner, x) == lookup_spec(env, x)
            },
{
    let inner = EnvModel::ExtendRec { name, param, body: func_body, saved: Box::new(env) };
    assert(eval_spec(body, inner, (fuel - 1) as nat) == eval_spec(body, inner, (fuel - 1) as nat));
}

/// Calling a procedure evaluates its body in the environment the procedure
/// was made in (not the caller's), where the parameter answers with the
/// argument and every other name answers as it did there.
pub proof fn lemma_eval_call_scope(
    operator: ExprModel,
    operand: ExprModel,
    env: EnvModel,
    fuel: nat,
    param: Seq<char>,
    body: ExprModel,
    saved: EnvModel,
    arg: ValueModel,
)
    requires
        fuel >= 1,
        eval_spec(operator, env, (fuel - 1) as nat) == Some(
            Ok::<ValueModel, EvalErrorModel>(
                ValueModel::Procedure { param, body, env: Box::new(saved) },
            ),
        ),
        eval_spec(operand, env, (fuel - 1) as nat) == Some(Ok::<ValueModel, EvalErrorModel>(arg)),
    ensures
        exists|inner: EnvModel|
            {
                &&& eval_spec(
                    ExprModel::Call { operator: Box::new(operator), operand: Box::new(operand) },
                    env,
                    fuel,
                ) == #[trigger] eval_spec(body, inner, (fuel - 1) as nat)
                &&& lookup_spec(inner, param) == Some(arg)
                &&& forall|x: Seq<char>| x != param ==> lookup_spec(inner, x) == lookup_spec(saved, x)
            },
{
    let inner = EnvModel::Extend { name: param, value: Box::new(arg), saved: Box::new(saved) };
    assert(eval_spec(body, inner, (fuel - 1) as nat) == eval_spec(body, inner, (fuel - 1) as nat));
}

/// `let x = e in b` evaluates `b` where `x` answers with the value of `e` and
/// every other name answers as before.
pub proof fn lemma_eval_let_scope(
    name: Seq<char>,
    value: ExprModel,
    body: ExprModel,
    env: EnvModel,
    fuel: nat,
    v: ValueModel,
)
    requires
        fuel >= 1,
        eval_spec(value, env, (fuel - 1) as nat) == Some(Ok::<ValueModel, EvalErrorModel>(v)),
    ensures
        exists|inner: EnvModel|
            {
                &&& eval_spec(
                    ExprModel::Let { name, value: Box::new(value), body: Box::new(body) },
                    env,
                    fuel,
                ) == #[trigger] eval_spec(body, inner, (fuel - 1) as nat)
                &&& lookup_spec(inner, name) == Some(v)
                &&& forall|x: Seq<char>| x != name ==> lookup_spec(inner, x) == lookup_spec(env, x)
            },
{
    let inner = EnvModel::Extend { name, value: Box::new(v), saved: Box::new(env) };
    assert(eval_spec(body, inner, (fuel - 1) as nat) == eval_spec(body, inner, (fuel - 1) as nat));
}

/// A variable evaluates to what the environment answers for it, and is an
/// error naming it when the environment has no answer.
pub proof fn lemma_eval_variable(x: Seq<char>, env: EnvModel, fuel: nat)
    requires
        fuel >= 1,
    ensures
        eval_spec(ExprModel::Variable(x), env, fuel) == Some(
            match lookup_spec(env, x) {
                Some(v) => Ok::<ValueModel, EvalErrorModel>(v),
                None => Err(EvalErrorModel::UnboundVariable(x)),
            },
        ),
{
}

/// `zero?` of a number is the boolean "it is 0"; of any other value, an error
/// naming that value.
pub proof fn lemma_eval_zero(arg: ExprModel, env: EnvModel, fuel: nat, v: ValueModel)
    requires
        fuel >= 1,
        eval_spec(arg, env, (fuel - 1) as nat) == Some(Ok::<ValueModel, EvalErrorModel>(v)),
    ensures
        eval_spec(ExprModel::Zero(Box::new(arg)), env, fuel) == Some(
            match v {
                ValueModel::Number(n) => Ok::<ValueModel, EvalErrorModel>(ValueModel::Bool(n == 0)),
                other => Err(EvalErrorModel::ZeroTestNotNumber(other)),
            },
        ),
{
}

/// `if` evaluates only the branch that the test chooses: `then` on true,
/// `else` on false; a test that is not a boolean is an error naming it.
pub proof fn lemma_eval_if(
    test: ExprModel,
    then_branch: ExprModel,
    else_branch: ExprModel,
    env: EnvModel,
    fuel: nat,
    v: ValueModel,
)
    requires
        fuel >= 1,
        eval_spec(test, env, (fuel - 1) as nat) == Some(Ok::<ValueModel, EvalErrorModel>(v)),
    ensures
        eval_spec(
            ExprModel::If {
                test: Box::new(test),
                then_branch: Box::new(then_branch),
                else_branch: Box::new(else_branch),
            },
            env,
            fuel,
        ) == match v {
            ValueModel::Bool(true) => eval_spec(then_branch, env, (fuel - 1) as nat),
            ValueModel::Bool(false) => eval_spec(else_branch, env, (fuel - 1) as nat),
            other => Some(Err::<ValueModel, EvalErrorModel>(EvalErrorModel::IfTestNotBoolean(other))),
        },
{
}

/// Value equality: a number or boolean equals exactly the values equal to it
/// as values; a procedure equals nothing.
pub proof fn lemma_values_equal(a: ValueModel, b: ValueModel)
    ensures
        values_equal(a, b) <==> (a == b && !(a is Procedure)),
{
}

/// `==` on values: a number or a boolean equals exactly the values with the
/// same model; a procedure equals nothing, not even itself.
pub proof fn lemma_value_eq(a: Value, b: Value)
    ensures
        a.eq_spec(&b) <==> (a.model() == b.model() && !(a is Procedure)),
{
}

/// The text shown for a number reads back, as an `i32` literal, as that
/// same number.
pub proof fn lemma_display_number_reads_back(n: i32)
    ensures
        parse_i32_spec(display_spec(ValueModel::Number(n))) == Some(n),
{
    if n < 0 {
        let m = (-(n as int)) as nat;
        lemma_nat_decimal(m);
        let s = decimal_text(n as int);
        assert(s.drop_first() =~= nat_decimal(m));
    } else {
        lemma_nat_decimal(n as nat);
    }
}

/// The text shown for a number that is not negative lexes back as that
/// number.
pub proof fn lemma_display_number_lexes_back(n: i32)
    requires
        n >= 0,
    ensures
        classify_spec(display_spec(ValueModel::Number(n))) == Ok::<TokenModel, LexErrorModel>(
            TokenModel::Number(n),
        ),
{
    let text = display_spec(ValueModel::Number(n));
    lemma_nat_decimal(n as nat);
    lemma_display_number_reads_back(n);
    assert('0' <= text[0] && text[0] <= '9');
    if let Some(t) = keyword_token(text) {
        lemma_fixed_token_text(t, text);
        assert(false);
    }
}

/// The decimal digits of `n` are ASCII digits, begin with a digit, and have
/// the value `n`.
proof fn lemma_nat_decimal(n: nat)
    ensures
        nat_decimal(n).len() > 0,
        all_ascii_digits(nat_decimal(n)),
        digits_value(nat_decimal(n)) == n,
    decreases n,
{
    let digits = seq!['0', '1', '2', '3', '4', '5', '6', '7', '8', '9'];
    if n < 10 {
        let s = nat_decimal(n);
        assert(s.drop_last() =~= Seq::<char>::empty());
        assert(digits_value(s.drop_last()) == 0);
        assert(digits[n as int] as u32 - '0' as u32 == n);
    } else {
        lemma_nat_decimal(n / 10);
        let s = nat_decimal(n);
        assert(s.drop_last() =~= nat_decimal(n / 10));
        assert(digits[(n % 10) as int] as u32 - '0' as u32 == n % 10);
        lemma_fundamental_div_mod(n as int, 10);
        assert(digits_value(s) == digits_value(nat_decimal(n / 10)) * 10 + n % 10);
        assert forall|i: int| 0 <= i < s.len() implies '0' <= #[trigger] s[i] && s[i] <= '9' by {
            if i < s.len() - 1 {
                assert(s[i] == nat_decimal(n / 10)[i]);
            }
        }
    }
}

/// The two operands of an arithmetic operator are evaluated left to right:
/// an error (or running out of depth) in the left one is the result, then one
/// in the right one; two values that are not both numbers are an error naming
/// both.
pub proof fn lemma_eval_arithmetic_order(
    op: ArithOp,
    left: ExprModel,
    right: ExprModel,
    env: EnvModel,
    fuel: nat,
)
    requires
        fuel >= 1,
    ensures
        ({
            let f = (fuel - 1) as nat;
            let r = eval_spec(
                ExprModel::Arithmetic { op, left: Box::new(left), right: Box::new(right) },
                env,
                fuel,
            );
            match (eval_spec(left, env, f), eval_spec(right, env, f)) {
                (None, _) => r is None,
                (Some(Err(e)), _) => r == Some(Err::<ValueModel, EvalErrorModel>(e)),
                (Some(Ok(_)), None) => r is None,
                (Some(Ok(_)), Some(Err(e))) => r == Some(Err::<ValueModel, EvalErrorModel>(e)),
                (Some(Ok(l)), Some(Ok(v))) => (l is Number && v is Number) || r == Some(
                    Err::<ValueModel, EvalErrorModel>(
                        EvalErrorModel::ArithmeticOperandsNotNumbers(l, v),
                    ),
                ),
            }
        }),
{
}

/// A call evaluates the operator, then the operand: an error (or running out
/// of depth) in the operator is the result, then one in the operand; an
/// operator value that is not a procedure is an error naming it.
pub proof fn lemma_eval_call_order(operator: ExprModel, operand: ExprModel, env: EnvModel, fuel: nat)
    requires
        fuel >= 1,
    ensures
        ({
            let f = (fuel - 1) as nat;
            let r = eval_spec(
                ExprModel::Call { operator: Box::new(operator), operand: Box::new(operand) },
                env,
                fuel,
            );
            match (eval_spec(operator, env, f), eval_spec(operand, env, f)) {
                (None, _) => r is None,
                (Some(Err(e)), _) => r == Some(Err::<ValueModel, EvalErrorModel>(e)),
                (Some(Ok(_)), None) => r is None,
                (Some(Ok(_)), Some(Err(e))) => r == Some(Err::<ValueModel, EvalErrorModel>(e)),
                (Some(Ok(p)), Some(Ok(_))) => p is Procedure || r == Some(
                    Err::<ValueModel, EvalErrorModel>(EvalErrorModel::CallOperatorNotProcedure(p)),
                ),
            }
        }),
{
}

/// `let`, `if` and `zero?` evaluate their first part first: when it fails
/// (or runs out of depth), so does the whole, with the same outcome.
pub proof fn lemma_eval_first_part_fails(
    name: Seq<char>,
    first: ExprModel,
    second: ExprModel,
    third: ExprModel,
    env: EnvModel,
    fuel: nat,
)
    requires
        fuel >= 1,
        !(eval_spec(first, env, (fuel - 1) as nat) is Some && eval_spec(
            first,
            env,
            (fuel - 1) as nat,
        )->Some_0 is Ok),
    ensures
        eval_spec(
            ExprModel::Let { name, value: Box::new(first), body: Box::new(second) },
            env,
            fuel,
        ) == eval_spec(first, env, (fuel - 1) as nat),
        eval_spec(
            ExprModel::If {
                test: Box::new(first),
                then_branch: Box::new(second),
                else_branch: Box::new(third),
            },
            env,
            fuel,
        ) == eval_spec(first, env, (fuel - 1) as nat),
        eval_spec(ExprModel::Zero(Box::new(first)), env, fuel) == eval_spec(
            first,
            env,
            (fuel - 1) as nat,
        ),
{
}

/// More depth never changes a result: once an evaluation finishes within some
/// depth, it finishes with the same value or error within any larger depth.
pub proof fn lemma_eval_depth_monotone(e: ExprModel, env: EnvModel, f1: nat, f2: nat)
    requires
        f1 <= f2,
        eval_spec(e, env, f1) is Some,
    ensures
        eval_spec(e, env, f2) == eval_spec(e, env, f1),
    decreases f1,
{
    let g1 = (f1 - 1) as nat;
    let g2 = (f2 - 1) as nat;
    match e {
        ExprModel::Let { name, value, body } => {
            lemma_eval_depth_monotone(*value, env, g1, g2);
            if let Some(Ok(v)) = eval_spec(*value, env, g1) {
                lemma_eval_depth_monotone(
                    *body,
                    EnvModel::Extend { name, value: Box::new(v), saved: Box::new(env) },
                    g1,
                    g2,
                );
            }
        },
        ExprModel::If { test, then_branch, else_branch } => {
            lemma_eval_depth_monotone(*test, env, g1, g2);
            match eval_spec(*test, env, g1) {
                Some(Ok(ValueModel::Bool(true))) => lemma_eval_depth_monotone(*then_branch, env, g1, g2),
                Some(Ok(ValueModel::Bool(false))) => lemma_eval_depth_monotone(*else_branch, env, g1, g2),
                _ => {},
            }
        },
        ExprModel::Arithmetic { op, left, right } => {
            lemma_eval_depth_monotone(*left, env, g1, g2);
            if let Some(Ok(l)) = eval_spec(*left, env, g1) {
                lemma_eval_depth_monotone(*right, env, g1, g2);
            }
        },
        ExprModel::Zero(arg) => {
            lemma_eval_depth_monotone(*arg, env, g1, g2);
        },
        ExprModel::Call { operator, operand } => {
            lemma_eval_depth_monotone(*operator, env, g1, g2);
            if let Some(Ok(p)) = eval_spec(*operator, env, g1) {
                lemma_eval_depth_monotone(*operand, env, g1, g2);
                if let Some(Ok(a)) = eval_spec(*operand, env, g1) {
                    if let ValueModel::Procedure { param, body, env: saved } = p {
                        lemma_eval_depth_monotone(
                            body,
                            EnvModel::Extend { name: param, value: Box::new(a), saved },
                            g1,
                            g2,
                        );
                    }
                }
            }
        },
        ExprModel::LetRec { name, param, func_body, body } => {
            lemma_eval_depth_monotone(
                *body,
                EnvModel::ExtendRec { name, param, body: *func_body, saved: Box::new(env) },
                g1,
                g2,
            );
        },
        _ => {},
    }
}

/// `let x = e in b` means exactly what applying `proc (x) b` to `e` means, at every depth.
pub proof fn lemma_let_is_call_of_proc(
    name: Seq<char>,
    value: ExprModel,
    body: ExprModel,
    env: EnvModel,
    fuel: nat,
)
    ensures
        eval_spec(
            ExprModel::Let { name, value: Box::new(value), body: Box::new(body) },
            env,
            fuel,
        ) == eval_spec(
            ExprModel::Call {
                operator: Box::new(ExprModel::Proc { param: name, body: Box::new(body) }),
                operand: Box::new(value),
            },
            env,
            fuel,
        ),
{
    if fuel == 1 {
        assert(eval_spec(value, env, 0) is None);
        assert(eval_spec(ExprModel::Proc { param: name, body: Box::new(body) }, env, 0) is None);
    } else if fuel >= 2 {
        let f = (fuel - 1) as nat;
        assert(eval_spec(ExprModel::Proc { param: name, body: Box::new(body) }, env, f) == Some(
            Ok::<ValueModel, EvalErrorModel>(ValueModel::Procedure { param: name, body, env: Box::new(env) }),
        ));
    }
}

/// Binding a name and then looking up a name: the binding answers for its own
/// name, and every other name is looked up in the environment it extends.
pub proof fn lemma_lookup_extend(name: Seq<char>, value: ValueModel, saved: EnvModel, x: Seq<char>)
    ensures
        lookup_spec(EnvModel::Extend { name, value: Box::new(value), saved: Box::new(saved) }, x)
            == if x == name {
            Some(value)
        } else {
            lookup_spec(saved, x)
        },
{
}

/// A recursive binding answers for its own name with its procedure, closed over
/// that same binding, so that the procedure's body can call it again; every
/// other name is looked up in the environment it extends.
pub proof fn lemma_lookup_extend_rec(
    name: Seq<char>,
    param: Seq<char>,
    body: ExprModel,
    saved: EnvModel,
    x: Seq<char>,
)
    ensures
        ({
            let env = EnvModel::ExtendRec { name, param, body, saved: Box::new(saved) };
            lookup_spec(env, x) == if x == name {
                Some(ValueModel::Procedure { param, body, env: Box::new(env) })
            } else {
                lookup_spec(saved, x)
            }
        }),
{
}

// ---------------------------------------------------------------------------
// The evaluator

/// Evaluates a closed expression in the empty environment.  An evaluation
/// that nests deeper than `EVAL_DEPTH_LIMIT` ends with `DepthExceeded`; the
/// limit lies far beyond what a machine stack holds.
pub fn eval(expr: &Expr) -> (r: Result<Value, EvalError>)
    ensures
        eval_result_model(r) == eval_outcome(
            eval_spec(expr.model(), EnvModel::Empty, EVAL_DEPTH_LIMIT as nat),
        ),
{
    let env = Rc::new(Env::Empty);
    eval_in_env(expr, env, EVAL_DEPTH_LIMIT)
}

/// Evaluates `expr` in `env`, nesting at most `fuel` evaluations deep.
fn eval_in_env(expr: &Expr, env: Rc<Env>, fuel: u64) -> (r: Result<Value, EvalError>)
    ensures
        eval_result_model(r) == eval_outcome(eval_spec(expr.model(), (*env).model(), fuel as nat)),
    decreases fuel,
{
    if fuel == 0 {
        return Err(EvalError::DepthExceeded);
    }
    let f = fuel - 1;
    match expr {
        Expr::Number(value) => Ok(Value::Number(*value)),
        Expr::Variable(name) => Env::lookup(&env, name.as_str()),
        Expr::Let { name, value, body } => {
            let bound = eval_in_env(value, env.clone(), f)?;
            let next_env = Rc::new(Env::Extend { name: name.clone(), value: bound, saved: env });
            eval_in_env(body, next_env, f)
        },
        Expr::If { test, then_branch, else_branch } => match eval_in_env(test, env.clone(), f)? {
            Value::Bool(true) => eval_in_env(then_branch, env, f),
            Value::Bool(false) => eval_in_env(else_branch, env, f),
            other => Err(EvalError::IfTestNotBoolean(other)),
        },
        Expr::Arithmetic { op, left, right } => {
            let left = eval_in_env(left, env.clone(), f)?;
            let right = eval_in_env(right, env, f)?;
            let (left, right) = match (left, right) {
                (Value::Number(left), Value::Number(right)) => (left, right),
                (left, right) => {
                    return Err(EvalError::ArithmeticOperandsNotNumbers(left, right));
                },
            };
            let value = match op {
                ArithOp::Add => left.checked_add(right),
                ArithOp::Sub => left.checked_sub(right),
                ArithOp::Mul => left.checked_mul(right),
                ArithOp::Div => {
                    if right == 0 {
                        return Err(EvalError::DivisionByZero);
                    }
                    proof {
                        lemma_trunc_div(left as int, right as int);
                    }
                    left.checked_div(right)
                },
            };
            match value {
                Some(value) => Ok(Value::Number(value)),
                None => Err(EvalError::ArithmeticOverflow),
            }
        },
        Expr::Zero(arg) => match eval_in_env(arg, env, f)? {
            Value::Number(value) => Ok(Value::Bool(value == 0)),
            other => Err(EvalError::ZeroTestNotNumber(other)),
        },
        Expr::Proc { param, body } => Ok(
            Value::Procedure(Rc::new(Procedure { param: param.clone(), body: (**body).clone(), env })),
        ),
        Expr::Call { operator, operand } => {
            let procedure = eval_in_env(operator, env.clone(), f)?;
            let argument = eval_in_env(operand, env, f)?;
            match procedure {
                Value::Procedure(proc) => {
                    let next_env = Rc::new(
                        Env::Extend { name: proc.param.clone(), value: argument, saved: proc.env.clone() },
                    );
                    eval_in_env(&proc.body, next_env, f)
                },
                other => Err(EvalError::CallOperatorNotProcedure(other)),
            }
        },
        Expr::LetRec { name, param, func_body, body } => {
            let next_env = Rc::new(
                Env::ExtendRec {
                    name: name.clone(),
                    param: param.clone(),
                    body: (**func_body).clone(),
                    saved: env,
                },
            );
            eval_in_env(body, next_env, f)
        },
    }
}

impl Env {
    fn lookup(env: &Rc<Env>, name: &str) -> (r: Result<Value, EvalError>)
        ensures
            eval_result_model(r) == match lookup_spec((**env).model(), name@) {
                Some(v) => Ok(v),
                None => Err(EvalErrorModel::UnboundVariable(name@)),
            },
        decreases **env,
    {
        match &**env {
            Env::Empty => Err(EvalError::UnboundVariable(name.to_owned())),
            Env::Extend { name: bound_name, value, saved } => {
                if str_eq(bound_name.as_str(), name) {
                    Ok(value.clone())
                } else {
                    Env::lookup(saved, name)
                }
            },
            Env::ExtendRec { name: func_name, param, body, saved } => {
                if str_eq(func_name.as_str(), name) {
                    Ok(
                        Value::Procedure(
                            Rc::new(
                                Procedure { param: param.clone(), body: body.clone(), env: env.clone() },
                            ),
                        ),
                    )
                } else {
                    Env::lookup(saved, name)
                }
            },
        }
    }
}

// ---------------------------------------------------------------------------
// Comparing and showing values

/// Numbers equal numbers of the same value, booleans equal booleans of the
/// same value; a procedure equals nothing, not even itself.
pub open spec fn values_equal(a: ValueModel, b: ValueModel) -> bool {
    match (a, b) {
        (ValueModel::Number(x), ValueModel::Number(y)) => x == y,
        (ValueModel::Bool(x), ValueModel::Bool(y)) => x == y,
        _ => false,
    }
}

impl PartialEq for Value {
    fn eq(&self, other: &Self) -> (r: bool) {
        match (self, other) {
            (Value::Number(left), Value::Number(right)) => *left == *right,
            (Value::Bool(left), Value::Bool(right)) => *left == *right,
            _ => false,
        }
    }
}

impl vstd::std_specs::cmp::PartialEqSpecImpl for Value {
    open spec fn obeys_eq_spec() -> bool {
        true
    }

    open spec fn eq_spec(&self, other: &Self) -> bool {
        values_equal(self.model(), other.model())
    }
}

impl Eq for Value {
}

/// The decimal digits of a natural number, without leading zeros.
pub open spec fn nat_decimal(n: nat) -> Seq<char>
    decreases n,
{
    let digits = seq!['0', '1', '2', '3', '4', '5', '6', '7', '8', '9'];
    if n < 10 {
        seq![digits[n as int]]
    } else {
        nat_decimal(n / 10).push(digits[(n % 10) as int])
    }
}

/// An integer in decimal, with a `-` before a negative one.
pub open spec fn decimal_text(n: int) -> Seq<char> {
    if n < 0 {
        seq!['-'] + nat_decimal((-n) as nat)
    } else {
        nat_decimal(n as nat)
    }
}

/// How a value is shown: a number in decimal, `true` or `false`, and
/// `<procedure>` for any procedure.
pub open spec fn display_spec(v: ValueModel) -> Seq<char> {
    match v {
        ValueModel::Number(n) => decimal_text(n as int),
        ValueModel::Bool(true) => seq!['t', 'r', 'u', 'e'],
        ValueModel::Bool(false) => seq!['f', 'a', 'l', 's', 'e'],
        ValueModel::Procedure { .. } => seq!['<', 'p', 'r', 'o', 'c', 'e', 'd', 'u', 'r', 'e', '>'],
    }
}

/// `i32`'s `to_string`: the number in decimal, with a leading `-` when negative.
#[verifier::external_body]
fn i32_to_string(n: i32) -> (r: String)
    ensures
        r@ == decimal_text(n as int),
{
    n.to_string()
}

impl Value {
    /// The value as the interpreter shows it.
    pub fn to_string(&self) -> (r: String)
        ensures
            r@ == display_spec(self.model()),
            *self matches Value::Number(n) ==> parse_i32_spec(r@) == Some(n),
    {
        proof {
            if let Value::Number(n) = self {
                lemma_display_number_reads_back(*n);
            }
            reveal_strlit("true");
            reveal_strlit("false");
            reveal_strlit("<procedure>");
            assert("true"@ =~= seq!['t', 'r', 'u', 'e']);
            assert("false"@ =~= seq!['f', 'a', 'l', 's', 'e']);
            assert("<procedure>"@ =~= seq!['<', 'p', 'r', 'o', 'c', 'e', 'd', 'u', 'r', 'e', '>']);
        }
        match self {
            Value::Number(value) => i32_to_string(*value),
            Value::Bool(true) => String::from_str("true"),
            Value::Bool(false) => String::from_str("false"),
            Value::Procedure(_) => String::from_str("<procedure>"),
        }
    }
}

} // verus!
