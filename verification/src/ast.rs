use vstd::prelude::*;

verus! {

/// The four arithmetic operators of the language.
#[derive(Debug, Clone, Copy, PartialEq, Eq)]
pub enum ArithOp {
    Add,
    Sub,
    Mul,
    Div,
}

/// An expression of the language, as the parser builds it.
#[derive(Debug, PartialEq, Eq)]
pub enum Expr {
    Number(i32),
    Variable(String),
    Let { name: String, value: Box<Expr>, body: Box<Expr> },
    If { test: Box<Expr>, then_branch: Box<Expr>, else_branch: Box<Expr> },
    Arithmetic { op: ArithOp, left: Box<Expr>, right: Box<Expr> },
    Zero(Box<Expr>),
    Proc { param: String, body: Box<Expr> },
    Call { operator: Box<Expr>, operand: Box<Expr> },
    LetRec { name: String, param: String, func_body: Box<Expr>, body: Box<Expr> },
}

/// The mathematical value of an expression: names are sequences of characters.
pub enum ExprModel {
    Number(i32),
    Variable(Seq<char>),
    Let { name: Seq<char>, value: Box<ExprModel>, body: Box<ExprModel> },
    If { test: Box<ExprModel>, then_branch: Box<ExprModel>, else_branch: Box<ExprModel> },
    Arithmetic { op: ArithOp, left: Box<ExprModel>, right: Box<ExprModel> },
    Zero(Box<ExprModel>),
    Proc { param: Seq<char>, body: Box<ExprModel> },
    Call { operator: Box<ExprModel>, operand: Box<ExprModel> },
    LetRec { name: Seq<char>, param: Seq<char>, func_body: Box<ExprModel>, body: Box<ExprModel> },
}

impl Expr {
    pub open spec fn model(&self) -> ExprModel
        decreases self,
    {
        match self {
            Expr::Number(n) => ExprModel::Number(*n),
            Expr::Variable(x) => ExprModel::Variable(x@),
            Expr::Let { name, value, body } => ExprModel::Let {
                name: name@,
                value: Box::new(value.model()),
                body: Box::new(body.model()),
            },
            Expr::If { test, then_branch, else_branch } => ExprModel::If {
                test: Box::new(test.model()),
                then_branch: Box::new(then_branch.model()),
                else_branch: Box::new(else_branch.model()),
            },
            Expr::Arithmetic { op, left, right } => ExprModel::Arithmetic {
                op: *op,
                left: Box::new(left.model()),
                right: Box::new(right.model()),
            },
            Expr::Zero(e) => ExprModel::Zero(Box::new(e.model())),
            Expr::Proc { param, body } => ExprModel::Proc {
                param: param@,
                body: Box::new(body.model()),
            },
            Expr::Call { operator, operand } => ExprModel::Call {
                operator: Box::new(operator.model()),
                operand: Box::new(operand.model()),
            },
            Expr::LetRec { name, param, func_body, body } => ExprModel::LetRec {
                name: name@,
                param: param@,
                func_body: Box::new(func_body.model()),
                body: Box::new(body.model()),
            },
        }
    }
}

impl Clone for Expr {
    fn clone(&self) -> (r: Self)
        ensures
            r == *self,
        decreases self,
    {
        match self {
            Expr::Number(n) => Expr::Number(*n),
            Expr::Variable(x) => Expr::Variable(x.clone()),
            Expr::Let { name, value, body } => Expr::Let {
                name: name.clone(),
                value: Box::new((**value).clone()),
                body: Box::new((**body).clone()),
            },
            Expr::If { test, then_branch, else_branch } => Expr::If {
                test: Box::new((**test).clone()),
                then_branch: Box::new((**then_branch).clone()),
                else_branch: Box::new((**else_branch).clone()),
            },
            Expr::Arithmetic { op, left, right } => Expr::Arithmetic {
                op: *op,
                left: Box::new((**left).clone()),
                right: Box::new((**right).clone()),
            },
            Expr::Zero(e) => Expr::Zero(Box::new((**e).clone())),
            Expr::Proc { param, body } => Expr::Proc {
                param: param.clone(),
                body: Box::new((**body).clone()),
            },
            Expr::Call { operator, operand } => Expr::Call {
                operator: Box::new((**operator).clone()),
                operand: Box::new((**operand).clone()),
            },
            Expr::LetRec { name, param, func_body, body } => Expr::LetRec {
                name: name.clone(),
                param: param.clone(),
                func_body: Box::new((**func_body).clone()),
                body: Box::new((**body).clone()),
            },
        }
    }
}

} // verus!
