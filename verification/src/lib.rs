use vstd::prelude::*;

pub mod ast;
pub mod interpreter;
pub mod lexer;
pub mod parser;
pub mod token;

pub use ast::{ArithOp, Expr, ExprModel};
pub use interpreter::{
    EVAL_DEPTH_LIMIT,
    EnvModel,
    EvalError,
    EvalErrorModel,
    Procedure,
    Value,
    ValueModel,
    eval,
};
pub use lexer::{LexError, LexErrorModel, tokenize};
pub use parser::{MissingPart, ParseError, ParseErrorModel, parse};
pub use token::{Token, TokenModel};


verus! {

/// Why running a source text failed: at which stage, and the error of that stage.
#[derive(Debug)]
pub enum Error {
    Lex(LexError),
    Parse(ParseError),
    Eval(EvalError),
}

/// The mathematical value of an `Error`.
pub enum ErrorModel {
    Lex(LexErrorModel),
    Parse(ParseErrorModel),
    Eval(EvalErrorModel),
}

impl Error {
    pub open spec fn model(&self) -> ErrorModel {
        match self {
            Error::Lex(e) => ErrorModel::Lex(e.model()),
            Error::Parse(e) => ErrorModel::Parse(e.model()),
            Error::Eval(e) => ErrorModel::Eval(e.model()),
        }
    }
}

/// What running a source text gives: its tokens, read as one expression,
/// evaluated in the empty environment; or the first stage's error.
pub open spec fn run_spec(source: Seq<char>) -> Result<ValueModel, ErrorModel> {
    match lexer::tokenize_spec(source) {
        Err(e) => Err(ErrorModel::Lex(e)),
        Ok(tokens) => match parser::parse_spec(tokens) {
            Err(e) => Err(ErrorModel::Parse(e)),
            Ok(expr) => match interpreter::eval_outcome(
                interpreter::eval_spec(expr, EnvModel::Empty, EVAL_DEPTH_LIMIT as nat),
            ) {
                Ok(v) => Ok(v),
                Err(e) => Err(ErrorModel::Eval(e)),
            },
        },
    }
}

/// The model of what `parse_and_eval` returns.
pub open spec fn run_result_model(r: Result<Value, Error>) -> Result<ValueModel, ErrorModel> {
    match r {
        Ok(v) => Ok(v.model()),
        Err(e) => Err(e.model()),
    }
}

/// Tokenizes, parses and evaluates a source text.
pub fn parse_and_eval(source: &str) -> (r: Result<Value, Error>)
    ensures
        run_result_model(r) == run_spec(source@),
{
    let tokens = match tokenize(source) {
        Ok(tokens) => tokens,
        Err(e) => return Err(Error::Lex(e)),
    };
    let expr = match parse(tokens.as_slice()) {
        Ok(expr) => expr,
        Err(e) => return Err(Error::Parse(e)),
    };
    match eval(&expr) {
        Ok(value) => Ok(value),
        Err(e) => Err(Error::Eval(e)),
    }
}

} // verus!
