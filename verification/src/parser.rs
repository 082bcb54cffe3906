use vstd::prelude::*;

use crate::ast::{ArithOp, Expr, ExprModel};
use crate::token::{Token, TokenModel, tokens_model};

verus! {

/// The sub-expression that a construct was still waiting for when the tokens ran out.
#[derive(Debug, Clone, Copy, PartialEq, Eq)]
pub enum MissingPart {
    LetBinding,
    LetBody,
    IfTest,
    ThenBranch,
    ElseBranch,
    ArithmeticLeft,
    ArithmeticRight,
    ZeroArgument,
    CallOperator,
    CallOperand,
    ProcedureBody,
    LetRecFunctionBody,
    LetRecBody,
}

/// Why a token sequence is not an expression.
#[derive(Debug, PartialEq, Eq)]
pub enum ParseError {
    /// There are no tokens at all.
    NoInput,
    /// A whole expression was read and this token follows it.
    UnexpectedTrailingToken(Token),
    /// The tokens ended where a sub-expression was needed.
    Missing(MissingPart),
    /// This token cannot begin an expression.
    UnexpectedToken(Token),
    /// An identifier was needed; this was found instead (`None`: the end).
    ExpectedIdentifier(Option<Token>),
    /// The token `expected` was needed; `found` came instead (`None`: the end).
    Expected { expected: Token, found: Option<Token> },
}

/// The mathematical value of a `ParseError`.
pub enum ParseErrorModel {
    NoInput,
    UnexpectedTrailingToken(TokenModel),
    Missing(MissingPart),
    UnexpectedToken(TokenModel),
    ExpectedIdentifier(Option<TokenModel>),
    Expected { expected: TokenModel, found: Option<TokenModel> },
}

pub open spec fn option_token_model(t: Option<Token>) -> Option<TokenModel> {
    match t {
        Some(t) => Some(t.model()),
        None => None,
    }
}

impl ParseError {
    pub open spec fn model(&self) -> ParseErrorModel {
        match self {
            ParseError::NoInput => ParseErrorModel::NoInput,
            ParseError::UnexpectedTrailingToken(t) => ParseErrorModel::UnexpectedTrailingToken(t.model()),
            ParseError::Missing(m) => ParseErrorModel::Missing(*m),
            ParseError::UnexpectedToken(t) => ParseErrorModel::UnexpectedToken(t.model()),
            ParseError::ExpectedIdentifier(t) => ParseErrorModel::ExpectedIdentifier(option_token_model(*t)),
            ParseError::Expected { expected, found } => ParseErrorModel::Expected {
                expected: expected.model(),
                found: option_token_model(*found),
            },
        }
    }
}

// ---------------------------------------------------------------------------
// The grammar, as a recursive-descent reading of a token sequence

/// The token at a position, if there is one.
pub open spec fn token_at(ts: Seq<TokenModel>, pos: int) -> Option<TokenModel> {
    if 0 <= pos < ts.len() {
        Some(ts[pos])
    } else {
        None
    }
}

/// The position after reading one token at `pos`: reading moves past the
/// token that is there, whatever it is, and stays put at the end.
pub open spec fn step_past(ts: Seq<TokenModel>, pos: int) -> int {
    if 0 <= pos < ts.len() {
        pos + 1
    } else {
        pos
    }
}

// Each reading below fails with an error and the position where the reading
// stopped.

/// Reading the fixed token `expected` at `pos`: the next position.
pub open spec fn expect_token(
    ts: Seq<TokenModel>,
    pos: int,
    expected: TokenModel,
) -> Result<int, (ParseErrorModel, int)> {
    if 0 <= pos < ts.len() && ts[pos] == expected {
        Ok(pos + 1)
    } else {
        Err((ParseErrorModel::Expected { expected, found: token_at(ts, pos) }, step_past(ts, pos)))
    }
}

/// Reading an identifier at `pos`: its name and the next position.
pub open spec fn expect_identifier(
    ts: Seq<TokenModel>,
    pos: int,
) -> Result<(Seq<char>, int), (ParseErrorModel, int)> {
    match token_at(ts, pos) {
        Some(TokenModel::Identifier(name)) => Ok((name, pos + 1)),
        other => Err((ParseErrorModel::ExpectedIdentifier(other), step_past(ts, pos))),
    }
}

/// The operator that a token names, for the four arithmetic tokens.
pub open spec fn arith_op_of(t: TokenModel) -> Option<ArithOp> {
    match t {
        TokenModel::Plus => Some(ArithOp::Add),
        TokenModel::Minus => Some(ArithOp::Sub),
        TokenModel::Times => Some(ArithOp::Mul),
        TokenModel::Div => Some(ArithOp::Div),
        _ => None,
    }
}

/// Reading a sub-expression that must be there; `missing` says which, when the tokens end.
pub open spec fn parse_required(ts: Seq<TokenModel>, pos: int, missing: MissingPart) -> Result<
    (ExprModel, int),
    (ParseErrorModel, int),
>
    decreases ts.len() - pos, 2int,
{
    match parse_expr_spec(ts, pos) {
        Ok(Some((e, p))) => if pos < p <= ts.len() {
            Ok((e, p))
        } else {
            Err((ParseErrorModel::NoInput, pos))
        },
        Ok(None) => Err((ParseErrorModel::Missing(missing), pos)),
        Err(err) => Err(err),
    }
}

/// Reading one expression that starts at `pos`: `Ok(None)` when there are no
/// tokens left, else the expression and the position after it, or the first error.
#[verifier::opaque]
pub open spec fn parse_expr_spec(ts: Seq<TokenModel>, pos: int) -> Result<
    Option<(ExprModel, int)>,
    (ParseErrorModel, int),
>
    decreases ts.len() - pos, 1int,
{
    if pos < 0 || pos >= ts.len() {
        Ok(None)
    } else {
        match ts[pos] {
            TokenModel::Number(n) => Ok(Some((ExprModel::Number(n), pos + 1))),
            TokenModel::Identifier(x) => Ok(Some((ExprModel::Variable(x), pos + 1))),
            TokenModel::Let => parse_let_spec(ts, pos),
            TokenModel::If => parse_if_spec(ts, pos),
            TokenModel::Plus | TokenModel::Minus | TokenModel::Times | TokenModel::Div => {
                parse_arithmetic_spec(ts, pos)
            },
            TokenModel::ZeroPredicate => parse_zero_spec(ts, pos),
            TokenModel::LeftParen => parse_call_spec(ts, pos),
            TokenModel::Procedure => parse_proc_spec(ts, pos),
            TokenModel::RecursiveLet => parse_letrec_spec(ts, pos),
            other => Err((ParseErrorModel::UnexpectedToken(other), pos + 1)),
        }
    }
}

// The constructs, each read from the token after its first one.  A
// sub-expression always ends after the position where the construct began;
// the tests `pos < p <= ts.len()` below always hold, and make that visible to
// the termination check.

/// `let name = value in body`
pub open spec fn parse_let_spec(ts: Seq<TokenModel>, pos: int) -> Result<
    Option<(ExprModel, int)>,
    (ParseErrorModel, int),
>
    decreases ts.len() - pos, 0int,
    when 0 <= pos < ts.len()
{
    match expect_identifier(ts, pos + 1) {
        Err(err) => Err(err),
        Ok((name, p1)) => match expect_token(ts, p1, TokenModel::Assignment) {
            Err(err) => Err(err),
            Ok(p2) => match parse_required(ts, p2, MissingPart::LetBinding) {
                Err(err) => Err(err),
                Ok((value, p3)) => if pos < p3 <= ts.len() {
                    match expect_token(ts, p3, TokenModel::In) {
                        Err(err) => Err(err),
                        Ok(p4) => match parse_required(ts, p4, MissingPart::LetBody) {
                            Err(err) => Err(err),
                            Ok((body, p5)) => Ok(
                                Some(
                                    (
                                        ExprModel::Let {
                                            name,
                                            value: Box::new(value),
                                            body: Box::new(body),
                                        },
                                        p5,
                                    ),
                                ),
                            ),
                        },
                    }
                } else {
                    Err((ParseErrorModel::NoInput, pos))
                },
            },
        },
    }
}

/// `if test then then_branch else else_branch`
pub open spec fn parse_if_spec(ts: Seq<TokenModel>, pos: int) -> Result<
    Option<(ExprModel, int)>,
    (ParseErrorModel, int),
>
    decreases ts.len() - pos, 0int,
    when 0 <= pos < ts.len()
{
    match parse_required(ts, pos + 1, MissingPart::IfTest) {
        Err(err) => Err(err),
        Ok((test, p1)) => if pos < p1 <= ts.len() {
            match expect_token(ts, p1, TokenModel::Then) {
                Err(err) => Err(err),
                Ok(p2) => match parse_required(ts, p2, MissingPart::ThenBranch) {
                    Err(err) => Err(err),
                    Ok((then_branch, p3)) => if pos < p3 <= ts.len() {
                        match expect_token(ts, p3, TokenModel::Else) {
                            Err(err) => Err(err),
                            Ok(p4) => match parse_required(ts, p4, MissingPart::ElseBranch) {
                                Err(err) => Err(err),
                                Ok((else_branch, p5)) => Ok(
                                    Some(
                                        (
                                            ExprModel::If {
                                                test: Box::new(test),
                                                then_branch: Box::new(then_branch),
                                                else_branch: Box::new(else_branch),
                                            },
                                            p5,
                                        ),
                                    ),
                                ),
                            },
                        }
                    } else {
                        Err((ParseErrorModel::NoInput, pos))
                    },
                },
            }
        } else {
            Err((ParseErrorModel::NoInput, pos))
        },
    }
}

/// `op(left, right)`, where `op` is one of `+ - * /`
pub open spec fn parse_arithmetic_spec(ts: Seq<TokenModel>, pos: int) -> Result<
    Option<(ExprModel, int)>,
    (ParseErrorModel, int),
>
    decreases ts.len() - pos, 0int,
    when 0 <= pos < ts.len()
{
    let op = arith_op_of(ts[pos])->Some_0;
    match expect_token(ts, pos + 1, TokenModel::LeftParen) {
        Err(err) => Err(err),
        Ok(p1) => match parse_required(ts, p1, MissingPart::ArithmeticLeft) {
            Err(err) => Err(err),
            Ok((left, p2)) => if pos < p2 <= ts.len() {
                match expect_token(ts, p2, TokenModel::Comma) {
                    Err(err) => Err(err),
                    Ok(p3) => match parse_required(ts, p3, MissingPart::ArithmeticRight) {
                        Err(err) => Err(err),
                        Ok((right, p4)) => match expect_token(ts, p4, TokenModel::RightParen) {
                            Err(err) => Err(err),
                            Ok(p5) => Ok(
                                Some(
                                    (
                                        ExprModel::Arithmetic {
                                            op,
                                            left: Box::new(left),
                                            right: Box::new(right),
                                        },
                                        p5,
                                    ),
                                ),
                            ),
                        },
                    },
                }
            } else {
                Err((ParseErrorModel::NoInput, pos))
            },
        },
    }
}

/// `zero?(arg)`
pub open spec fn parse_zero_spec(ts: Seq<TokenModel>, pos: int) -> Result<
    Option<(ExprModel, int)>,
    (ParseErrorModel, int),
>
    decreases ts.len() - pos, 0int,
    when 0 <= pos < ts.len()
{
    match expect_token(ts, pos + 1, TokenModel::LeftParen) {
        Err(err) => Err(err),
        Ok(p1) => match parse_required(ts, p1, MissingPart::ZeroArgument) {
            Err(err) => Err(err),
            Ok((arg, p2)) => match expect_token(ts, p2, TokenModel::RightParen) {
                Err(err) => Err(err),
                Ok(p3) => Ok(Some((ExprModel::Zero(Box::new(arg)), p3))),
            },
        },
    }
}

/// `(operator operand)`
pub open spec fn parse_call_spec(ts: Seq<TokenModel>, pos: int) -> Result<
    Option<(ExprModel, int)>,
    (ParseErrorModel, int),
>
    decreases ts.len() - pos, 0int,
    when 0 <= pos < ts.len()
{
    match parse_required(ts, pos + 1, MissingPart::CallOperator) {
        Err(err) => Err(err),
        Ok((operator, p1)) => if pos < p1 <= ts.len() {
            match parse_required(ts, p1, MissingPart::CallOperand) {
                Err(err) => Err(err),
                Ok((operand, p2)) => match expect_token(ts, p2, TokenModel::RightParen) {
                    Err(err) => Err(err),
                    Ok(p3) => Ok(
                        Some(
                            (
                                ExprModel::Call {
                                    operator: Box::new(operator),
                                    operand: Box::new(operand),
                                },
                                p3,
                            ),
                        ),
                    ),
                },
            }
        } else {
            Err((ParseErrorModel::NoInput, pos))
        },
    }
}

/// `proc (param) body`
pub open spec fn parse_proc_spec(ts: Seq<TokenModel>, pos: int) -> Result<
    Option<(ExprModel, int)>,
    (ParseErrorModel, int),
>
    decreases ts.len() - pos, 0int,
    when 0 <= pos < ts.len()
{
    match expect_token(ts, pos + 1, TokenModel::LeftParen) {
        Err(err) => Err(err),
        Ok(p1) => match expect_identifier(ts, p1) {
            Err(err) => Err(err),
            Ok((param, p2)) => match expect_token(ts, p2, TokenModel::RightParen) {
                Err(err) => Err(err),
                Ok(p3) => match parse_required(ts, p3, MissingPart::ProcedureBody) {
                    Err(err) => Err(err),
                    Ok((body, p4)) => Ok(Some((ExprModel::Proc { param, body: Box::new(body) }, p4))),
                },
            },
        },
    }
}

/// `letrec name(param) = func_body in body`
pub open spec fn parse_letrec_spec(ts: Seq<TokenModel>, pos: int) -> Result<
    Option<(ExprModel, int)>,
    (ParseErrorModel, int),
>
    decreases ts.len() - pos, 0int,
    when 0 <= pos < ts.len()
{
    match expect_identifier(ts, pos + 1) {
        Err(err) => Err(err),
        Ok((name, p1)) => match expect_token(ts, p1, TokenModel::LeftParen) {
            Err(err) => Err(err),
            Ok(p2) => match expect_identifier(ts, p2) {
                Err(err) => Err(err),
                Ok((param, p3)) => match expect_token(ts, p3, TokenModel::RightParen) {
                    Err(err) => Err(err),
                    Ok(p4) => match expect_token(ts, p4, TokenModel::Assignment) {
                        Err(err) => Err(err),
                        Ok(p5) => match parse_required(ts, p5, MissingPart::LetRecFunctionBody) {
                            Err(err) => Err(err),
                            Ok((func_body, p6)) => if pos < p6 <= ts.len() {
                                match expect_token(ts, p6, TokenModel::In) {
                                    Err(err) => Err(err),
                                    Ok(p7) => match parse_required(ts, p7, MissingPart::LetRecBody) {
                                        Err(err) => Err(err),
                                        Ok((body, p8)) => Ok(
                                            Some(
                                                (
                                                    ExprModel::LetRec {
                                                        name,
                                                        param,
                                                        func_body: Box::new(func_body),
                                                        body: Box::new(body),
                                                    },
                                                    p8,
                                                ),
                                            ),
                                        ),
                                    },
                                }
                            } else {
                                Err((ParseErrorModel::NoInput, pos))
                            },
                        },
                    },
                },
            },
        },
    }
}

/// Reading one expression at `pos` succeeds with `e`, and the next position is `p`.
pub open spec fn reads_as(ts: Seq<TokenModel>, pos: int, e: ExprModel, p: int) -> bool {
    parse_expr_spec(ts, pos) == Ok::<Option<(ExprModel, int)>, (ParseErrorModel, int)>(Some((e, p)))
}

/// Reading a whole token sequence as one expression.
pub open spec fn parse_spec(ts: Seq<TokenModel>) -> Result<ExprModel, ParseErrorModel> {
    match parse_expr_spec(ts, 0) {
        Ok(Some((e, p))) => if p < ts.len() {
            Err(ParseErrorModel::UnexpectedTrailingToken(ts[p]))
        } else {
            Ok(e)
        },
        Ok(None) => Err(ParseErrorModel::NoInput),
        Err((err, _)) => Err(err),
    }
}

// ---------------------------------------------------------------------------
// The tokens of an expression, and the parser as their inverse

/// The token of an arithmetic operator.
pub open spec fn op_token(op: ArithOp) -> TokenModel {
    match op {
        ArithOp::Add => TokenModel::Plus,
        ArithOp::Sub => TokenModel::Minus,
        ArithOp::Mul => TokenModel::Times,
        ArithOp::Div => TokenModel::Div,
    }
}

/// The tokens that spell an expression in the concrete syntax.
pub open spec fn expr_tokens(e: ExprModel) -> Seq<TokenModel>
    decreases e,
{
    match e {
        ExprModel::Number(n) => seq![TokenModel::Number(n)],
        ExprModel::Variable(x) => seq![TokenModel::Identifier(x)],
        ExprModel::Let { name, value, body } => seq![
            TokenModel::Let,
            TokenModel::Identifier(name),
            TokenModel::Assignment,
        ] + expr_tokens(*value) + seq![TokenModel::In] + expr_tokens(*body),
        ExprModel::If { test, then_branch, else_branch } => seq![TokenModel::If] + expr_tokens(*test)
            + seq![TokenModel::Then] + expr_tokens(*then_branch) + seq![TokenModel::Else]
            + expr_tokens(*else_branch),
        ExprModel::Arithmetic { op, left, right } => seq![op_token(op), TokenModel::LeftParen]
            + expr_tokens(*left) + seq![TokenModel::Comma] + expr_tokens(*right) + seq![
            TokenModel::RightParen,
        ],
        ExprModel::Zero(arg) => seq![TokenModel::ZeroPredicate, TokenModel::LeftParen] + expr_tokens(
            *arg,
        ) + seq![TokenModel::RightParen],
        ExprModel::Proc { param, body } => seq![
            TokenModel::Procedure,
            TokenModel::LeftParen,
            TokenModel::Identifier(param),
            TokenModel::RightParen,
        ] + expr_tokens(*body),
        ExprModel::Call { operator, operand } => seq![TokenModel::LeftParen] + expr_tokens(*operator)
            + expr_tokens(*operand) + seq![TokenModel::RightParen],
        ExprModel::LetRec { name, param, func_body, body } => seq![
            TokenModel::RecursiveLet,
            TokenModel::Identifier(name),
            TokenModel::LeftParen,
            TokenModel::Identifier(param),
            TokenModel::RightParen,
            TokenModel::Assignment,
        ] + expr_tokens(*func_body) + seq![TokenModel::In] + expr_tokens(*body),
    }
}

proof fn lemma_expr_tokens_nonempty(e: ExprModel)
    ensures
        expr_tokens(e).len() >= 1,
{
}

/// Where `t` stands in `ts` at `pos`, each part of `t` stands in `ts` at the matching place.
proof fn lemma_window(
    ts: Seq<TokenModel>,
    pos: int,
    t: Seq<TokenModel>,
    a: int,
    part: Seq<TokenModel>,
)
    requires
        0 <= pos,
        pos + t.len() <= ts.len(),
        ts.subrange(pos, pos + t.len()) == t,
        0 <= a,
        a + part.len() <= t.len(),
        t.subrange(a, a + part.len()) == part,
    ensures
        ts.subrange(pos + a, pos + a + part.len()) == part,
        forall|k: int| 0 <= k < part.len() ==> ts[pos + a + k] == #[trigger] part[k],
{
    assert forall|k: int| 0 <= k < part.len() implies ts[pos + a + k] == #[trigger] part[k] by {
        assert(ts.subrange(pos, pos + t.len())[a + k] == ts[pos + a + k]);
        assert(t.subrange(a, a + part.len())[k] == t[a + k]);
    }
    assert(ts.subrange(pos + a, pos + a + part.len()) =~= part);
}

// One step of reading each construct, from the readings of its parts.

proof fn lemma_step_let(
    ts: Seq<TokenModel>,
    pos: int,
    name: Seq<char>,
    value: ExprModel,
    body: ExprModel,
    p3: int,
    p5: int,
)
    requires
        0 <= pos,
        pos + 3 < p3 < p5 <= ts.len(),
        ts[pos] == TokenModel::Let,
        ts[pos + 1] == TokenModel::Identifier(name),
        ts[pos + 2] == TokenModel::Assignment,
        reads_as(ts, pos + 3, value, p3),
        ts[p3] == TokenModel::In,
        p3 + 1 < p5,
        reads_as(ts, p3 + 1, body, p5),
    ensures
        reads_as(
            ts,
            pos,
            ExprModel::Let {
                name,
                value: Box::new(value),
                body: Box::new(body),
            },
            p5,
        ),
{
    reveal(parse_expr_spec);
}

proof fn lemma_step_if(
    ts: Seq<TokenModel>,
    pos: int,
    test: ExprModel,
    then_branch: ExprModel,
    else_branch: ExprModel,
    p1: int,
    p3: int,
    p5: int,
)
    requires
        0 <= pos,
        pos + 1 < p1,
        p1 + 1 < p3,
        p3 + 1 < p5 <= ts.len(),
        ts[pos] == TokenModel::If,
        reads_as(ts, pos + 1, test, p1),
        ts[p1] == TokenModel::Then,
        reads_as(ts, p1 + 1, then_branch, p3),
        ts[p3] == TokenModel::Else,
        reads_as(ts, p3 + 1, else_branch, p5),
    ensures
        reads_as(
            ts,
            pos,
            ExprModel::If {
                test: Box::new(test),
                then_branch: Box::new(then_branch),
                else_branch: Box::new(else_branch),
            },
            p5,
        ),
{
    reveal(parse_expr_spec);
}

proof fn lemma_step_arithmetic(
    ts: Seq<TokenModel>,
    pos: int,
    op: ArithOp,
    left: ExprModel,
    right: ExprModel,
    p2: int,
    p4: int,
)
    requires
        0 <= pos,
        pos + 2 < p2,
        p2 + 1 < p4,
        p4 < ts.len(),
        ts[pos] == op_token(op),
        ts[pos + 1] == TokenModel::LeftParen,
        reads_as(ts, pos + 2, left, p2),
        ts[p2] == TokenModel::Comma,
        reads_as(ts, p2 + 1, right, p4),
        ts[p4] == TokenModel::RightParen,
    ensures
        reads_as(
            ts,
            pos,
            ExprModel::Arithmetic {
                op,
                left: Box::new(left),
                right: Box::new(right),
            },
            p4 + 1,
        ),
{
    reveal(parse_expr_spec);
}

proof fn lemma_step_zero(ts: Seq<TokenModel>, pos: int, arg: ExprModel, p2: int)
    requires
        0 <= pos,
        pos + 2 < p2 < ts.len(),
        ts[pos] == TokenModel::ZeroPredicate,
        ts[pos + 1] == TokenModel::LeftParen,
        reads_as(ts, pos + 2, arg, p2),
        ts[p2] == TokenModel::RightParen,
    ensures
        reads_as(ts, pos, ExprModel::Zero(Box::new(arg)), p2 + 1),
{
    reveal(parse_expr_spec);
}

proof fn lemma_step_proc(ts: Seq<TokenModel>, pos: int, param: Seq<char>, body: ExprModel, p4: int)
    requires
        0 <= pos,
        pos + 4 < p4 <= ts.len(),
        ts[pos] == TokenModel::Procedure,
        ts[pos + 1] == TokenModel::LeftParen,
        ts[pos + 2] == TokenModel::Identifier(param),
        ts[pos + 3] == TokenModel::RightParen,
        reads_as(ts, pos + 4, body, p4),
    ensures
        reads_as(ts, pos, ExprModel::Proc { param, body: Box::new(body) }, p4),
{
    reveal(parse_expr_spec);
}

proof fn lemma_step_call(
    ts: Seq<TokenModel>,
    pos: int,
    operator: ExprModel,
    operand: ExprModel,
    p1: int,
    p2: int,
)
    requires
        0 <= pos,
        pos + 1 < p1 < p2 < ts.len(),
        ts[pos] == TokenModel::LeftParen,
        reads_as(ts, pos + 1, operator, p1),
        reads_as(ts, p1, operand, p2),
        ts[p2] == TokenModel::RightParen,
    ensures
        reads_as(
            ts,
            pos,
            ExprModel::Call {
                operator: Box::new(operator),
                operand: Box::new(operand),
            },
            p2 + 1,
        ),
{
    reveal(parse_expr_spec);
}

proof fn lemma_step_letrec(
    ts: Seq<TokenModel>,
    pos: int,
    name: Seq<char>,
    param: Seq<char>,
    func_body: ExprModel,
    body: ExprModel,
    p6: int,
    p8: int,
)
    requires
        0 <= pos,
        pos + 6 < p6,
        p6 + 1 < p8 <= ts.len(),
        ts[pos] == TokenModel::RecursiveLet,
        ts[pos + 1] == TokenModel::Identifier(name),
        ts[pos + 2] == TokenModel::LeftParen,
        ts[pos + 3] == TokenModel::Identifier(param),
        ts[pos + 4] == TokenModel::RightParen,
        ts[pos + 5] == TokenModel::Assignment,
        reads_as(ts, pos + 6, func_body, p6),
        ts[p6] == TokenModel::In,
        reads_as(ts, p6 + 1, body, p8),
    ensures
        reads_as(
            ts,
            pos,
            ExprModel::LetRec {
                name,
                param,
                func_body: Box::new(func_body),
                body: Box::new(body),
            },
            p8,
        ),
{
    reveal(parse_expr_spec);
}

/// Parsing the tokens of an expression, wherever they stand, gives back that
/// expression and the position just after its tokens.
pub proof fn lemma_parse_expr_tokens(e: ExprModel, ts: Seq<TokenModel>, pos: int)
    requires
        0 <= pos,
        pos + expr_tokens(e).len() <= ts.len(),
        ts.subrange(pos, pos + expr_tokens(e).len()) == expr_tokens(e),
    ensures
        reads_as(ts, pos, e, pos + expr_tokens(e).len()),
    decreases e, 1int,
{
    let t = expr_tokens(e);
    let n = t.len() as int;
    assert(t.subrange(0, n) =~= t);
    lemma_window(ts, pos, t, 0, t);
    match e {
        ExprModel::Number(v) => {
            assert(t[0] == TokenModel::Number(v));
            reveal(parse_expr_spec);
        },
        ExprModel::Variable(x) => {
            assert(t[0] == TokenModel::Identifier(x));
            reveal(parse_expr_spec);
        },
        ExprModel::Let { .. } => lemma_parse_let_tokens(e, ts, pos),
        ExprModel::If { .. } => lemma_parse_if_tokens(e, ts, pos),
        ExprModel::Arithmetic { .. } => lemma_parse_arithmetic_tokens(e, ts, pos),
        ExprModel::Zero(..) => lemma_parse_zero_tokens(e, ts, pos),
        ExprModel::Proc { .. } => lemma_parse_proc_tokens(e, ts, pos),
        ExprModel::Call { .. } => lemma_parse_call_tokens(e, ts, pos),
        ExprModel::LetRec { .. } => lemma_parse_letrec_tokens(e, ts, pos),
    }
}

proof fn lemma_parse_let_tokens(e: ExprModel, ts: Seq<TokenModel>, pos: int)
    requires
        e is Let,
        0 <= pos,
        pos + expr_tokens(e).len() <= ts.len(),
        ts.subrange(pos, pos + expr_tokens(e).len()) == expr_tokens(e),
    ensures
        reads_as(ts, pos, e, pos + expr_tokens(e).len()),
    decreases e, 0int,
{
    let t = expr_tokens(e);
    let n = t.len() as int;
    assert(t.subrange(0, n) =~= t);
    lemma_window(ts, pos, t, 0, t);
    match e {
        ExprModel::Let { name, value, body } => {
                let tv = expr_tokens(*value);
                let lv = tv.len() as int;
                let tb = expr_tokens(*body);
                let lb = tb.len() as int;
                assert(t[0] == TokenModel::Let && t[1] == TokenModel::Identifier(name) && t[2]
                    == TokenModel::Assignment && t[3 + lv] == TokenModel::In);
                assert(t.subrange(3, 3 + lv) =~= tv);
                assert(t.subrange(4 + lv, 4 + lv + lb) =~= tb);
                lemma_window(ts, pos, t, 3, tv);
                lemma_window(ts, pos, t, 4 + lv, tb);
                lemma_parse_expr_tokens(*value, ts, pos + 3);
                lemma_parse_expr_tokens(*body, ts, pos + 4 + lv);
                lemma_expr_tokens_nonempty(*value);
                lemma_expr_tokens_nonempty(*body);
                lemma_step_let(ts, pos, name, *value, *body, pos + 3 + lv, pos + 4 + lv + lb);
        },
        _ => {},
    }
}

proof fn lemma_parse_if_tokens(e: ExprModel, ts: Seq<TokenModel>, pos: int)
    requires
        e is If,
        0 <= pos,
        pos + expr_tokens(e).len() <= ts.len(),
        ts.subrange(pos, pos + expr_tokens(e).len()) == expr_tokens(e),
    ensures
        reads_as(ts, pos, e, pos + expr_tokens(e).len()),
    decreases e, 0int,
{
    let t = expr_tokens(e);
    let n = t.len() as int;
    assert(t.subrange(0, n) =~= t);
    lemma_window(ts, pos, t, 0, t);
    match e {
        ExprModel::If { test, then_branch, else_branch } => {
                let t1 = expr_tokens(*test);
                let l1 = t1.len() as int;
                let t2 = expr_tokens(*then_branch);
                let l2 = t2.len() as int;
                let t3 = expr_tokens(*else_branch);
                let l3 = t3.len() as int;
                assert(t[0] == TokenModel::If && t[1 + l1] == TokenModel::Then && t[2 + l1 + l2]
                    == TokenModel::Else);
                assert(t.subrange(1, 1 + l1) =~= t1);
                assert(t.subrange(2 + l1, 2 + l1 + l2) =~= t2);
                assert(t.subrange(3 + l1 + l2, 3 + l1 + l2 + l3) =~= t3);
                lemma_window(ts, pos, t, 1, t1);
                lemma_window(ts, pos, t, 2 + l1, t2);
                lemma_window(ts, pos, t, 3 + l1 + l2, t3);
                lemma_parse_expr_tokens(*test, ts, pos + 1);
                lemma_parse_expr_tokens(*then_branch, ts, pos + 2 + l1);
                lemma_parse_expr_tokens(*else_branch, ts, pos + 3 + l1 + l2);
                lemma_expr_tokens_nonempty(*test);
                lemma_expr_tokens_nonempty(*then_branch);
                lemma_expr_tokens_nonempty(*else_branch);
                lemma_step_if(
                    ts,
                    pos,
                    *test,
                    *then_branch,
                    *else_branch,
                    pos + 1 + l1,
                    pos + 2 + l1 + l2,
                    pos + 3 + l1 + l2 + l3,
                );
        },
        _ => {},
    }
}

proof fn lemma_parse_arithmetic_tokens(e: ExprModel, ts: Seq<TokenModel>, pos: int)
    requires
        e is Arithmetic,
        0 <= pos,
        pos + expr_tokens(e).len() <= ts.len(),
        ts.subrange(pos, pos + expr_tokens(e).len()) == expr_tokens(e),
    ensures
        reads_as(ts, pos, e, pos + expr_tokens(e).len()),
    decreases e, 0int,
{
    let t = expr_tokens(e);
    let n = t.len() as int;
    assert(t.subrange(0, n) =~= t);
    lemma_window(ts, pos, t, 0, t);
    match e {
        ExprModel::Arithmetic { op, left, right } => {
                let t1 = expr_tokens(*left);
                let l1 = t1.len() as int;
                let t2 = expr_tokens(*right);
                let l2 = t2.len() as int;
                assert(t[0] == op_token(op) && t[1] == TokenModel::LeftParen && t[2 + l1]
                    == TokenModel::Comma && t[3 + l1 + l2] == TokenModel::RightParen);
                assert(t.subrange(2, 2 + l1) =~= t1);
                assert(t.subrange(3 + l1, 3 + l1 + l2) =~= t2);
                lemma_window(ts, pos, t, 2, t1);
                lemma_window(ts, pos, t, 3 + l1, t2);
                lemma_parse_expr_tokens(*left, ts, pos + 2);
                lemma_parse_expr_tokens(*right, ts, pos + 3 + l1);
                lemma_expr_tokens_nonempty(*left);
                lemma_expr_tokens_nonempty(*right);
                lemma_step_arithmetic(ts, pos, op, *left, *right, pos + 2 + l1, pos + 3 + l1 + l2);
        },
        _ => {},
    }
}

proof fn lemma_parse_zero_tokens(e: ExprModel, ts: Seq<TokenModel>, pos: int)
    requires
        e is Zero,
        0 <= pos,
        pos + expr_tokens(e).len() <= ts.len(),
        ts.subrange(pos, pos + expr_tokens(e).len()) == expr_tokens(e),
    ensures
        reads_as(ts, pos, e, pos + expr_tokens(e).len()),
    decreases e, 0int,
{
    let t = expr_tokens(e);
    let n = t.len() as int;
    assert(t.subrange(0, n) =~= t);
    lemma_window(ts, pos, t, 0, t);
    match e {
        ExprModel::Zero(arg) => {
                let t1 = expr_tokens(*arg);
                let l1 = t1.len() as int;
                assert(t[0] == TokenModel::ZeroPredicate && t[1] == TokenModel::LeftParen && t[2 + l1]
                    == TokenModel::RightParen);
                assert(t.subrange(2, 2 + l1) =~= t1);
                lemma_window(ts, pos, t, 2, t1);
                lemma_parse_expr_tokens(*arg, ts, pos + 2);
                lemma_expr_tokens_nonempty(*arg);
                lemma_step_zero(ts, pos, *arg, pos + 2 + l1);
        },
        _ => {},
    }
}

proof fn lemma_parse_proc_tokens(e: ExprModel, ts: Seq<TokenModel>, pos: int)
    requires
        e is Proc,
        0 <= pos,
        pos + expr_tokens(e).len() <= ts.len(),
        ts.subrange(pos, pos + expr_tokens(e).len()) == expr_tokens(e),
    ensures
        reads_as(ts, pos, e, pos + expr_tokens(e).len()),
    decreases e, 0int,
{
    let t = expr_tokens(e);
    let n = t.len() as int;
    assert(t.subrange(0, n) =~= t);
    lemma_window(ts, pos, t, 0, t);
    match e {
        ExprModel::Proc { param, body } => {
                let t1 = expr_tokens(*body);
                let l1 = t1.len() as int;
                assert(t[0] == TokenModel::Procedure && t[1] == TokenModel::LeftParen && t[2]
                    == TokenModel::Identifier(param) && t[3] == TokenModel::RightParen);
                assert(t.subrange(4, 4 + l1) =~= t1);
                lemma_window(ts, pos, t, 4, t1);
                lemma_parse_expr_tokens(*body, ts, pos + 4);
                lemma_expr_tokens_nonempty(*body);
                lemma_step_proc(ts, pos, param, *body, pos + 4 + l1);
        },
        _ => {},
    }
}

proof fn lemma_parse_call_tokens(e: ExprModel, ts: Seq<TokenModel>, pos: int)
    requires
        e is Call,
        0 <= pos,
        pos + expr_tokens(e).len() <= ts.len(),
        ts.subrange(pos, pos + expr_tokens(e).len()) == expr_tokens(e),
    ensures
        reads_as(ts, pos, e, pos + expr_tokens(e).len()),
    decreases e, 0int,
{
    let t = expr_tokens(e);
    let n = t.len() as int;
    assert(t.subrange(0, n) =~= t);
    lemma_window(ts, pos, t, 0, t);
    match e {
        ExprModel::Call { operator, operand } => {
                let t1 = expr_tokens(*operator);
                let l1 = t1.len() as int;
                let t2 = expr_tokens(*operand);
                let l2 = t2.len() as int;
                assert(t[0] == TokenModel::LeftParen && t[1 + l1 + l2] == TokenModel::RightParen);
                assert(t.subrange(1, 1 + l1) =~= t1);
                assert(t.subrange(1 + l1, 1 + l1 + l2) =~= t2);
                lemma_window(ts, pos, t, 1, t1);
                lemma_window(ts, pos, t, 1 + l1, t2);
                lemma_parse_expr_tokens(*operator, ts, pos + 1);
                lemma_parse_expr_tokens(*operand, ts, pos + 1 + l1);
                lemma_expr_tokens_nonempty(*operator);
                lemma_expr_tokens_nonempty(*operand);
                lemma_step_call(ts, pos, *operator, *operand, pos + 1 + l1, pos + 1 + l1 + l2);
        },
        _ => {},
    }
}

proof fn lemma_parse_letrec_tokens(e: ExprModel, ts: Seq<TokenModel>, pos: int)
    requires
        e is LetRec,
        0 <= pos,
        pos + expr_tokens(e).len() <= ts.len(),
        ts.subrange(pos, pos + expr_tokens(e).len()) == expr_tokens(e),
    ensures
        reads_as(ts, pos, e, pos + expr_tokens(e).len()),
    decreases e, 0int,
{
    let t = expr_tokens(e);
    let n = t.len() as int;
    assert(t.subrange(0, n) =~= t);
    lemma_window(ts, pos, t, 0, t);
    match e {
        ExprModel::LetRec { name, param, func_body, body } => {
                let t1 = expr_tokens(*func_body);
                let l1 = t1.len() as int;
                let t2 = expr_tokens(*body);
                let l2 = t2.len() as int;
                assert(t[0] == TokenModel::RecursiveLet && t[1] == TokenModel::Identifier(name) && t[2]
                    == TokenModel::LeftParen && t[3] == TokenModel::Identifier(param) && t[4]
                    == TokenModel::RightParen && t[5] == TokenModel::Assignment && t[6 + l1]
                    == TokenModel::In);
                assert(t.subrange(6, 6 + l1) =~= t1);
                assert(t.subrange(7 + l1, 7 + l1 + l2) =~= t2);
                lemma_window(ts, pos, t, 6, t1);
                lemma_window(ts, pos, t, 7 + l1, t2);
                lemma_parse_expr_tokens(*func_body, ts, pos + 6);
                lemma_parse_expr_tokens(*body, ts, pos + 7 + l1);
                lemma_expr_tokens_nonempty(*func_body);
                lemma_expr_tokens_nonempty(*body);
                lemma_step_letrec(ts, pos, name, param, *func_body, *body, pos + 6 + l1, pos + 7 + l1 + l2);
        },
        _ => {},
    }
}

/// The parser reads the tokens of any expression back as that expression.
pub proof fn lemma_parse_inverts_expr_tokens(e: ExprModel)
    ensures
        parse_spec(expr_tokens(e)) == Ok::<ExprModel, ParseErrorModel>(e),
{
    let t = expr_tokens(e);
    assert(t.subrange(0, t.len() as int) =~= t);
    lemma_parse_expr_tokens(e, t, 0);
}

/// A successful reading of one expression spans exactly the tokens of that expression.
pub open spec fn parsed_span(ts: Seq<TokenModel>, pos: int) -> bool {
    match parse_expr_spec(ts, pos) {
        Ok(Some((e, p))) => pos < p <= ts.len() && ts.subrange(pos, p) == expr_tokens(e),
        _ => true,
    }
}

/// Whatever the parser reads as an expression is spelled by exactly the
/// tokens of that expression: the concrete syntax is unambiguous.
pub proof fn lemma_parsed_tokens(ts: Seq<TokenModel>, pos: int)
    requires
        0 <= pos,
    ensures
        parsed_span(ts, pos),
    decreases ts.len() - pos, 1int,
{
    reveal(parse_expr_spec);
    if pos < ts.len() {
        match ts[pos] {
            TokenModel::Let => lemma_parsed_let_tokens(ts, pos),
            TokenModel::If => lemma_parsed_if_tokens(ts, pos),
            TokenModel::Plus | TokenModel::Minus | TokenModel::Times | TokenModel::Div => lemma_parsed_arithmetic_tokens(ts, pos),
            TokenModel::ZeroPredicate => lemma_parsed_zero_tokens(ts, pos),
            TokenModel::LeftParen => lemma_parsed_call_tokens(ts, pos),
            TokenModel::Procedure => lemma_parsed_proc_tokens(ts, pos),
            TokenModel::RecursiveLet => lemma_parsed_letrec_tokens(ts, pos),
            _ => {
                if let Ok(Some((e, p))) = parse_expr_spec(ts, pos) {
                    assert(ts.subrange(pos, p) =~= seq![ts[pos]]);
                }
            },
        }
    }
}

proof fn lemma_parsed_let_tokens(ts: Seq<TokenModel>, pos: int)
    requires
        0 <= pos < ts.len(),
        ts[pos] == TokenModel::Let,
    ensures
        parsed_span(ts, pos),
    decreases ts.len() - pos, 0int,
{
    reveal(parse_expr_spec);
    if let Ok(Some((e, p))) = parse_expr_spec(ts, pos) {
        let (name, p1) = expect_identifier(ts, pos + 1)->Ok_0;
        let p2 = expect_token(ts, p1, TokenModel::Assignment)->Ok_0;
        let (value, p3) = parse_required(ts, p2, MissingPart::LetBinding)->Ok_0;
        let p4 = expect_token(ts, p3, TokenModel::In)->Ok_0;
        lemma_parsed_tokens(ts, p2);
        lemma_parsed_tokens(ts, p4);
        assert(ts.subrange(pos, p) =~= seq![TokenModel::Let, TokenModel::Identifier(name), TokenModel::Assignment]
            + ts.subrange(p2, p3) + seq![TokenModel::In] + ts.subrange(p4, p));
    }
}

proof fn lemma_parsed_if_tokens(ts: Seq<TokenModel>, pos: int)
    requires
        0 <= pos < ts.len(),
        ts[pos] == TokenModel::If,
    ensures
        parsed_span(ts, pos),
    decreases ts.len() - pos, 0int,
{
    reveal(parse_expr_spec);
    if let Ok(Some((e, p))) = parse_expr_spec(ts, pos) {
        let (test, p1) = parse_required(ts, pos + 1, MissingPart::IfTest)->Ok_0;
        let p2 = expect_token(ts, p1, TokenModel::Then)->Ok_0;
        let (then_branch, p3) = parse_required(ts, p2, MissingPart::ThenBranch)->Ok_0;
        let p4 = expect_token(ts, p3, TokenModel::Else)->Ok_0;
        lemma_parsed_tokens(ts, pos + 1);
        lemma_parsed_tokens(ts, p2);
        lemma_parsed_tokens(ts, p4);
        assert(ts.subrange(pos, p) =~= seq![TokenModel::If] + ts.subrange(pos + 1, p1) + seq![TokenModel::Then]
            + ts.subrange(p2, p3) + seq![TokenModel::Else] + ts.subrange(p4, p));
    }
}

proof fn lemma_parsed_arithmetic_tokens(ts: Seq<TokenModel>, pos: int)
    requires
        0 <= pos < ts.len(),
        arith_op_of(ts[pos]) is Some,
    ensures
        parsed_span(ts, pos),
    decreases ts.len() - pos, 0int,
{
    reveal(parse_expr_spec);
    if let Ok(Some((e, p))) = parse_expr_spec(ts, pos) {
        let op = arith_op_of(ts[pos])->Some_0;
        let p1 = expect_token(ts, pos + 1, TokenModel::LeftParen)->Ok_0;
        let (left, p2) = parse_required(ts, p1, MissingPart::ArithmeticLeft)->Ok_0;
        let p3 = expect_token(ts, p2, TokenModel::Comma)->Ok_0;
        let (right, p4) = parse_required(ts, p3, MissingPart::ArithmeticRight)->Ok_0;
        lemma_parsed_tokens(ts, p1);
        lemma_parsed_tokens(ts, p3);
        assert(ts.subrange(pos, p) =~= seq![op_token(op), TokenModel::LeftParen] + ts.subrange(p1, p2)
            + seq![TokenModel::Comma] + ts.subrange(p3, p4) + seq![TokenModel::RightParen]);
    }
}

proof fn lemma_parsed_zero_tokens(ts: Seq<TokenModel>, pos: int)
    requires
        0 <= pos < ts.len(),
        ts[pos] == TokenModel::ZeroPredicate,
    ensures
        parsed_span(ts, pos),
    decreases ts.len() - pos, 0int,
{
    reveal(parse_expr_spec);
    if let Ok(Some((e, p))) = parse_expr_spec(ts, pos) {
        let p1 = expect_token(ts, pos + 1, TokenModel::LeftParen)->Ok_0;
        let (arg, p2) = parse_required(ts, p1, MissingPart::ZeroArgument)->Ok_0;
        lemma_parsed_tokens(ts, p1);
        assert(ts.subrange(pos, p) =~= seq![TokenModel::ZeroPredicate, TokenModel::LeftParen] + ts.subrange(p1, p2)
            + seq![TokenModel::RightParen]);
    }
}

proof fn lemma_parsed_call_tokens(ts: Seq<TokenModel>, pos: int)
    requires
        0 <= pos < ts.len(),
        ts[pos] == TokenModel::LeftParen,
    ensures
        parsed_span(ts, pos),
    decreases ts.len() - pos, 0int,
{
    reveal(parse_expr_spec);
    if let Ok(Some((e, p))) = parse_expr_spec(ts, pos) {
        let (operator, p1) = parse_required(ts, pos + 1, MissingPart::CallOperator)->Ok_0;
        let (operand, p2) = parse_required(ts, p1, MissingPart::CallOperand)->Ok_0;
        lemma_parsed_tokens(ts, pos + 1);
        lemma_parsed_tokens(ts, p1);
        assert(ts.subrange(pos, p) =~= seq![TokenModel::LeftParen] + ts.subrange(pos + 1, p1) + ts.subrange(p1, p2)
            + seq![TokenModel::RightParen]);
    }
}

proof fn lemma_parsed_proc_tokens(ts: Seq<TokenModel>, pos: int)
    requires
        0 <= pos < ts.len(),
        ts[pos] == TokenModel::Procedure,
    ensures
        parsed_span(ts, pos),
    decreases ts.len() - pos, 0int,
{
    reveal(parse_expr_spec);
    if let Ok(Some((e, p))) = parse_expr_spec(ts, pos) {
        let p1 = expect_token(ts, pos + 1, TokenModel::LeftParen)->Ok_0;
        let (param, p2) = expect_identifier(ts, p1)->Ok_0;
        let p3 = expect_token(ts, p2, TokenModel::RightParen)->Ok_0;
        lemma_parsed_tokens(ts, p3);
        assert(ts.subrange(pos, p) =~= seq![
            TokenModel::Procedure,
            TokenModel::LeftParen,
            TokenModel::Identifier(param),
            TokenModel::RightParen,
        ] + ts.subrange(p3, p));
    }
}

proof fn lemma_parsed_letrec_tokens(ts: Seq<TokenModel>, pos: int)
    requires
        0 <= pos < ts.len(),
        ts[pos] == TokenModel::RecursiveLet,
    ensures
        parsed_span(ts, pos),
    decreases ts.len() - pos, 0int,
{
    reveal(parse_expr_spec);
    if let Ok(Some((e, p))) = parse_expr_spec(ts, pos) {
        let (name, p1) = expect_identifier(ts, pos + 1)->Ok_0;
        let p2 = expect_token(ts, p1, TokenModel::LeftParen)->Ok_0;
        let (param, p3) = expect_identifier(ts, p2)->Ok_0;
        let p4 = expect_token(ts, p3, TokenModel::RightParen)->Ok_0;
        let p5 = expect_token(ts, p4, TokenModel::Assignment)->Ok_0;
        let (func_body, p6) = parse_required(ts, p5, MissingPart::LetRecFunctionBody)->Ok_0;
        let p7 = expect_token(ts, p6, TokenModel::In)->Ok_0;
        lemma_parsed_tokens(ts, p5);
        lemma_parsed_tokens(ts, p7);
        assert(ts.subrange(pos, p) =~= seq![
            TokenModel::RecursiveLet,
            TokenModel::Identifier(name),
            TokenModel::LeftParen,
            TokenModel::Identifier(param),
            TokenModel::RightParen,
            TokenModel::Assignment,
        ] + ts.subrange(p5, p6) + seq![TokenModel::In] + ts.subrange(p7, p));
    }
}

/// A token sequence reads as an expression exactly when it is the tokens of that expression.
pub proof fn lemma_parse_spec_iff_expr_tokens(ts: Seq<TokenModel>, e: ExprModel)
    ensures
        parse_spec(ts) == Ok::<ExprModel, ParseErrorModel>(e) <==> ts == expr_tokens(e),
{
    if ts == expr_tokens(e) {
        lemma_parse_inverts_expr_tokens(e);
    }
    if parse_spec(ts) == Ok::<ExprModel, ParseErrorModel>(e) {
        lemma_parsed_tokens(ts, 0);
        assert(ts.subrange(0, ts.len() as int) =~= ts);
    }
}

// ---------------------------------------------------------------------------
// The parser

/// The outcome of reading a fixed token, against `expect_token`.
pub open spec fn fixed_outcome(
    r: Result<(), ParseError>,
    spec: Result<int, (ParseErrorModel, int)>,
    index: usize,
) -> bool {
    match spec {
        Ok(p) => r is Ok && index == p,
        Err((err, p)) => r matches Err(x) && x.model() == err && index == p,
    }
}

/// Reads a whole token sequence as one expression.
pub fn parse(tokens: &[Token]) -> (r: Result<Expr, ParseError>)
    ensures
        match parse_spec(tokens_model(tokens@)) {
            Ok(e) => r matches Ok(x) && x.model() == e,
            Err(err) => r matches Err(x) && x.model() == err,
        },
{
    let mut parser = Parser::new(tokens);
    let expr = match parser.parse_expr()? {
        Some(expr) => expr,
        None => return Err(ParseError::NoInput),
    };
    if let Some(token) = parser.peek() {
        return Err(ParseError::UnexpectedTrailingToken(token.clone()));
    }
    Ok(expr)
}

struct Parser<'a> {
    tokens: &'a [Token],
    index: usize,
}

impl<'a> Parser<'a> {
    spec fn ts(&self) -> Seq<TokenModel> {
        tokens_model(self.tokens@)
    }

    spec fn wf(&self) -> bool {
        self.index <= self.tokens@.len()
    }

    fn new(tokens: &'a [Token]) -> (p: Self)
        ensures
            p.tokens == tokens,
            p.index == 0,
    {
        Self { tokens, index: 0 }
    }

    fn peek(&self) -> (r: Option<&'a Token>)
        ensures
            self.index < self.tokens@.len() ==> (r matches Some(t) && *t == self.tokens@[self.index as int]),
            self.index >= self.tokens@.len() ==> r is None,
    {
        let tokens = self.tokens;
        if self.index < tokens.len() {
            Some(&tokens[self.index])
        } else {
            None
        }
    }

    fn next(&mut self) -> (r: Option<&'a Token>)
        requires
            old(self).wf(),
        ensures
            final(self).tokens == old(self).tokens,
            final(self).wf(),
            old(self).index < old(self).tokens@.len() ==> (r matches Some(t) && *t
                == old(self).tokens@[old(self).index as int] && final(self).index == old(self).index + 1),
            old(self).index >= old(self).tokens@.len() ==> r is None && final(self).index
                == old(self).index,
    {
        let token = self.peek();
        assert(self.tokens@.len() == self.tokens.len());
        if token.is_some() {
            self.index += 1;
        }
        token
    }

    fn parse_identifier(&mut self) -> (r: Result<String, ParseError>)
        requires
            old(self).wf(),
        ensures
            final(self).tokens == old(self).tokens,
            final(self).wf(),
            match expect_identifier(old(self).ts(), old(self).index as int) {
                Ok((name, p)) => r matches Ok(s) && s@ == name && final(self).index == p,
                Err((err, p)) => r matches Err(x) && x.model() == err && final(self).index == p,
            },
    {
        let ghost ts = self.ts();
        match self.next() {
            Some(Token::Identifier(name)) => Ok(name.clone()),
            other => {
                let found = match other {
                    Some(t) => Some(t.clone()),
                    None => None,
                };
                Err(ParseError::ExpectedIdentifier(found))
            },
        }
    }

    fn consume_fixed(&mut self, expected: Token) -> (r: Result<(), ParseError>)
        requires
            old(self).wf(),
        ensures
            final(self).tokens == old(self).tokens,
            final(self).wf(),
            fixed_outcome(
                r,
                expect_token(old(self).ts(), old(self).index as int, expected.model()),
                final(self).index,
            ),
    {
        let next = self.next();
        if let Some(token) = next {
            if *token == expected {
                return Ok(());
            }
        }
        let found = match next {
            Some(t) => Some(t.clone()),
            None => None,
        };
        Err(ParseError::Expected { expected, found })
    }

    fn parse_expr(&mut self) -> (r: Result<Option<Expr>, ParseError>)
        requires
            old(self).wf(),
        ensures
            final(self).tokens == old(self).tokens,
            final(self).wf(),
            old(self).index <= final(self).index,
            r is Err ==> old(self).index < final(self).index,
            r matches Ok(Some(_)) ==> old(self).index < final(self).index,
            match parse_expr_spec(old(self).ts(), old(self).index as int) {
                Ok(None) => r matches Ok(None) && final(self).index == old(self).index,
                Ok(Some((e, p))) => r matches Ok(Some(x)) && x.model() == e && final(self).index == p,
                Err((err, p)) => r matches Err(x) && x.model() == err && final(self).index == p,
            },
        decreases old(self).tokens@.len() - old(self).index,
    {
        let ghost ts = self.ts();
        let ghost pos = self.index as int;
        reveal(parse_expr_spec);
        let next = match self.next() {
            Some(token) => token.clone(),
            None => return Ok(None),
        };
        assert(next.model() == ts[pos]);
        let expr = match next {
            Token::Number(value) => Expr::Number(value),
            Token::Identifier(name) => Expr::Variable(name),
            Token::Let => {
                let name = self.parse_identifier()?;
                self.consume_assignment()?;
                let value = match self.parse_expr()? {
                    Some(value) => value,
                    None => return Err(ParseError::Missing(MissingPart::LetBinding)),
                };
                self.consume_in()?;
                let body = match self.parse_expr()? {
                    Some(body) => body,
                    None => return Err(ParseError::Missing(MissingPart::LetBody)),
                };
                Expr::Let { name, value: Box::new(value), body: Box::new(body) }
            },
            Token::If => {
                let test = match self.parse_expr()? {
                    Some(test) => test,
                    None => return Err(ParseError::Missing(MissingPart::IfTest)),
                };
                self.consume_then()?;
                let then_branch = match self.parse_expr()? {
                    Some(then_branch) => then_branch,
                    None => return Err(ParseError::Missing(MissingPart::ThenBranch)),
                };
                self.consume_else()?;
                let else_branch = match self.parse_expr()? {
                    Some(else_branch) => else_branch,
                    None => return Err(ParseError::Missing(MissingPart::ElseBranch)),
                };
                Expr::If {
                    test: Box::new(test),
                    then_branch: Box::new(then_branch),
                    else_branch: Box::new(else_branch),
                }
            },
            Token::Plus | Token::Minus | Token::Times | Token::Div => {
                let op = match next {
                    Token::Plus => ArithOp::Add,
                    Token::Minus => ArithOp::Sub,
                    Token::Times => ArithOp::Mul,
                    _ => ArithOp::Div,
                };
                self.consume_left_paren()?;
                let left = match self.parse_expr()? {
                    Some(left) => left,
                    None => return Err(ParseError::Missing(MissingPart::ArithmeticLeft)),
                };
                self.consume_comma()?;
                let right = match self.parse_expr()? {
                    Some(right) => right,
                    None => return Err(ParseError::Missing(MissingPart::ArithmeticRight)),
                };
                self.consume_right_paren()?;
                Expr::Arithmetic { op, left: Box::new(left), right: Box::new(right) }
            },
            Token::ZeroPredicate => {
                self.consume_left_paren()?;
                let expr = match self.parse_expr()? {
                    Some(expr) => expr,
                    None => return Err(ParseError::Missing(MissingPart::ZeroArgument)),
                };
                self.consume_right_paren()?;
                Expr::Zero(Box::new(expr))
            },
            Token::LeftParen => {
                let operator = match self.parse_expr()? {
                    Some(operator) => operator,
                    None => return Err(ParseError::Missing(MissingPart::CallOperator)),
                };
                let operand = match self.parse_expr()? {
                    Some(operand) => operand,
                    None => return Err(ParseError::Missing(MissingPart::CallOperand)),
                };
                self.consume_right_paren()?;
                Expr::Call { operator: Box::new(operator), operand: Box::new(operand) }
            },
            Token::Procedure => {
                self.consume_left_paren()?;
                let param = self.parse_identifier()?;
                self.consume_right_paren()?;
                let body = match self.parse_expr()? {
                    Some(body) => body,
                    None => return Err(ParseError::Missing(MissingPart::ProcedureBody)),
                };
                Expr::Proc { param, body: Box::new(body) }
            },
            Token::RecursiveLet => {
                let name = self.parse_identifier()?;
                self.consume_left_paren()?;
                let param = self.parse_identifier()?;
                self.consume_right_paren()?;
                self.consume_assignment()?;
                let func_body = match self.parse_expr()? {
                    Some(func_body) => func_body,
                    None => return Err(ParseError::Missing(MissingPart::LetRecFunctionBody)),
                };
                self.consume_in()?;
                let body = match self.parse_expr()? {
                    Some(body) => body,
                    None => return Err(ParseError::Missing(MissingPart::LetRecBody)),
                };
                Expr::LetRec { name, param, func_body: Box::new(func_body), body: Box::new(body) }
            },
            unexpected => {
                return Err(ParseError::UnexpectedToken(unexpected));
            },
        };
        Ok(Some(expr))
    }

    fn consume_left_paren(&mut self) -> (r: Result<(), ParseError>)
        requires
            old(self).wf(),
        ensures
            final(self).tokens == old(self).tokens,
            final(self).wf(),
            fixed_outcome(
                r,
                expect_token(old(self).ts(), old(self).index as int, TokenModel::LeftParen),
                final(self).index,
            ),
    {
        self.consume_fixed(Token::LeftParen)
    }

    fn consume_right_paren(&mut self) -> (r: Result<(), ParseError>)
        requires
            old(self).wf(),
        ensures
            final(self).tokens == old(self).tokens,
            final(self).wf(),
            fixed_outcome(
                r,
                expect_token(old(self).ts(), old(self).index as int, TokenModel::RightParen),
                final(self).index,
            ),
    {
        self.consume_fixed(Token::RightParen)
    }

    fn consume_comma(&mut self) -> (r: Result<(), ParseError>)
        requires
            old(self).wf(),
        ensures
            final(self).tokens == old(self).tokens,
            final(self).wf(),
            fixed_outcome(
                r,
                expect_token(old(self).ts(), old(self).index as int, TokenModel::Comma),
                final(self).index,
            ),
    {
        self.consume_fixed(Token::Comma)
    }

    fn consume_assignment(&mut self) -> (r: Result<(), ParseError>)
        requires
            old(self).wf(),
        ensures
            final(self).tokens == old(self).tokens,
            final(self).wf(),
            fixed_outcome(
                r,
                expect_token(old(self).ts(), old(self).index as int, TokenModel::Assignment),
                final(self).index,
            ),
    {
        self.consume_fixed(Token::Assignment)
    }

    fn consume_in(&mut self) -> (r: Result<(), ParseError>)
        requires
            old(self).wf(),
        ensures
            final(self).tokens == old(self).tokens,
            final(self).wf(),
            fixed_outcome(
                r,
                expect_token(old(self).ts(), old(self).index as int, TokenModel::In),
                final(self).index,
            ),
    {
        self.consume_fixed(Token::In)
    }

    fn consume_then(&mut self) -> (r: Result<(), ParseError>)
        requires
            old(self).wf(),
        ensures
            final(self).tokens == old(self).tokens,
            final(self).wf(),
            fixed_outcome(
                r,
                expect_token(old(self).ts(), old(self).index as int, TokenModel::Then),
                final(self).index,
            ),
    {
        self.consume_fixed(Token::Then)
    }

    fn consume_else(&mut self) -> (r: Result<(), ParseError>)
        requires
            old(self).wf(),
        ensures
            final(self).tokens == old(self).tokens,
            final(self).wf(),
            fixed_outcome(
                r,
                expect_token(old(self).ts(), old(self).index as int, TokenModel::Else),
                final(self).index,
            ),
    {
        self.consume_fixed(Token::Else)
    }
}

} // verus!
