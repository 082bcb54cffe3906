use vstd::prelude::*;

verus! {

/// A lexical token of the language.
#[derive(Debug)]
pub enum Token {
    LeftParen,
    RightParen,
    Comma,
    Assignment,
    Let,
    In,
    If,
    Then,
    Else,
    ZeroPredicate,
    Procedure,
    RecursiveLet,
    Minus,
    Plus,
    Times,
    Div,
    Number(i32),
    Identifier(String),
}

/// The mathematical value of a token: identifiers are sequences of characters.
pub enum TokenModel {
    LeftParen,
    RightParen,
    Comma,
    Assignment,
    Let,
    In,
    If,
    Then,
    Else,
    ZeroPredicate,
    Procedure,
    RecursiveLet,
    Minus,
    Plus,
    Times,
    Div,
    Number(i32),
    Identifier(Seq<char>),
}

impl Token {
    pub open spec fn model(&self) -> TokenModel {
        match self {
            Token::LeftParen => TokenModel::LeftParen,
            Token::RightParen => TokenModel::RightParen,
            Token::Comma => TokenModel::Comma,
            Token::Assignment => TokenModel::Assignment,
            Token::Let => TokenModel::Let,
            Token::In => TokenModel::In,
            Token::If => TokenModel::If,
            Token::Then => TokenModel::Then,
            Token::Else => TokenModel::Else,
            Token::ZeroPredicate => TokenModel::ZeroPredicate,
            Token::Procedure => TokenModel::Procedure,
            Token::RecursiveLet => TokenModel::RecursiveLet,
            Token::Minus => TokenModel::Minus,
            Token::Plus => TokenModel::Plus,
            Token::Times => TokenModel::Times,
            Token::Div => TokenModel::Div,
            Token::Number(n) => TokenModel::Number(*n),
            Token::Identifier(s) => TokenModel::Identifier(s@),
        }
    }
}

impl PartialEq for Token {
    fn eq(&self, other: &Self) -> (r: bool) {
        match (self, other) {
            (Token::LeftParen, Token::LeftParen) => true,
            (Token::RightParen, Token::RightParen) => true,
            (Token::Comma, Token::Comma) => true,
            (Token::Assignment, Token::Assignment) => true,
            (Token::Let, Token::Let) => true,
            (Token::In, Token::In) => true,
            (Token::If, Token::If) => true,
            (Token::Then, Token::Then) => true,
            (Token::Else, Token::Else) => true,
            (Token::ZeroPredicate, Token::ZeroPredicate) => true,
            (Token::Procedure, Token::Procedure) => true,
            (Token::RecursiveLet, Token::RecursiveLet) => true,
            (Token::Minus, Token::Minus) => true,
            (Token::Plus, Token::Plus) => true,
            (Token::Times, Token::Times) => true,
            (Token::Div, Token::Div) => true,
            (Token::Number(a), Token::Number(b)) => *a == *b,
            (Token::Identifier(a), Token::Identifier(b)) => *a == *b,
            _ => false,
        }
    }
}

impl vstd::std_specs::cmp::PartialEqSpecImpl for Token {
    open spec fn obeys_eq_spec() -> bool {
        true
    }

    /// Two tokens are equal when they are the same kind with the same payload.
    open spec fn eq_spec(&self, other: &Self) -> bool {
        self.model() == other.model()
    }
}

impl Eq for Token {
}

impl Clone for Token {
    fn clone(&self) -> (r: Self)
        ensures
            r == *self,
    {
        match self {
            Token::LeftParen => Token::LeftParen,
            Token::RightParen => Token::RightParen,
            Token::Comma => Token::Comma,
            Token::Assignment => Token::Assignment,
            Token::Let => Token::Let,
            Token::In => Token::In,
            Token::If => Token::If,
            Token::Then => Token::Then,
            Token::Else => Token::Else,
            Token::ZeroPredicate => Token::ZeroPredicate,
            Token::Procedure => Token::Procedure,
            Token::RecursiveLet => Token::RecursiveLet,
            Token::Minus => Token::Minus,
            Token::Plus => Token::Plus,
            Token::Times => Token::Times,
            Token::Div => Token::Div,
            Token::Number(n) => Token::Number(*n),
            Token::Identifier(s) => Token::Identifier(s.clone()),
        }
    }
}

/// The tokens' models, one for one.
pub open spec fn tokens_model(ts: Seq<Token>) -> Seq<TokenModel> {
    ts.map_values(|t: Token| t.model())
}

} // verus!
