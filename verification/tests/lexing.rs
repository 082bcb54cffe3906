use eopl::{LexError, Token, tokenize};

fn ident(name: &str) -> Token {
    Token::Identifier(name.to_string())
}

#[test]
fn tokenizes_keywords_punctuation_and_numbers() {
    let tokens = tokenize("let x = 5 in -(x, 3)").unwrap();
    assert_eq!(
        tokens,
        vec![
            Token::Let,
            ident("x"),
            Token::Assignment,
            Token::Number(5),
            Token::In,
            Token::Minus,
            Token::LeftParen,
            ident("x"),
            Token::Comma,
            Token::Number(3),
            Token::RightParen,
        ]
    );
}

#[test]
fn every_keyword_has_its_token() {
    let tokens = tokenize("( ) , = let in if then else zero? proc letrec - + * /").unwrap();
    assert_eq!(
        tokens,
        vec![
            Token::LeftParen,
            Token::RightParen,
            Token::Comma,
            Token::Assignment,
            Token::Let,
            Token::In,
            Token::If,
            Token::Then,
            Token::Else,
            Token::ZeroPredicate,
            Token::Procedure,
            Token::RecursiveLet,
            Token::Minus,
            Token::Plus,
            Token::Times,
            Token::Div,
        ]
    );
}

#[test]
fn separators_stand_alone_without_spaces() {
    let tokens = tokenize("f(x)=y,z").unwrap();
    assert_eq!(
        tokens,
        vec![
            ident("f"),
            Token::LeftParen,
            ident("x"),
            Token::RightParen,
            Token::Assignment,
            ident("y"),
            Token::Comma,
            ident("z"),
        ]
    );
}

#[test]
fn minus_and_plus_glue_to_following_text() {
    // '-' and '+' are not separators: "-5" is one piece, and it is no number.
    assert_eq!(tokenize("-5").unwrap(), vec![ident("-5")]);
    assert_eq!(tokenize("+(1,2)").unwrap(), vec![
        Token::Plus,
        Token::LeftParen,
        Token::Number(1),
        Token::Comma,
        Token::Number(2),
        Token::RightParen,
    ]);
}

#[test]
fn all_unicode_whitespace_separates_pieces() {
    let tokens = tokenize("a\tb\nc\r\nd\u{3000}e\u{85}f\u{a0}g").unwrap();
    assert_eq!(
        tokens,
        vec![ident("a"), ident("b"), ident("c"), ident("d"), ident("e"), ident("f"), ident("g")]
    );
}

#[test]
fn empty_and_blank_sources_have_no_tokens() {
    assert_eq!(tokenize("").unwrap(), Vec::<Token>::new());
    assert_eq!(tokenize("  \n\t ").unwrap(), Vec::<Token>::new());
}

#[test]
fn refuses_control_characters_that_are_not_whitespace() {
    assert_eq!(
        tokenize("let x = 1\u{7} in x"),
        Err(LexError::UnsupportedControlCharacter('\u{7}'))
    );
    assert_eq!(tokenize("a\u{7f}"), Err(LexError::UnsupportedControlCharacter('\u{7f}')));
}

#[test]
fn reports_the_first_refused_character() {
    assert_eq!(tokenize("\u{1}\u{2}"), Err(LexError::UnsupportedControlCharacter('\u{1}')));
}

#[test]
fn control_error_comes_before_number_errors() {
    // Splitting finishes before any piece is turned into a token.
    assert_eq!(tokenize("12x \u{1b}"), Err(LexError::UnsupportedControlCharacter('\u{1b}')));
}

#[test]
fn refuses_pieces_that_start_with_a_digit_but_are_not_numbers() {
    assert_eq!(tokenize("12abc"), Err(LexError::InvalidNumberLiteral("12abc".to_string())));
    assert_eq!(
        tokenize("1 2147483648"),
        Err(LexError::InvalidNumberLiteral("2147483648".to_string()))
    );
}

#[test]
fn non_ascii_numeric_characters_start_invalid_literals() {
    assert_eq!(tokenize("\u{663}"), Err(LexError::InvalidNumberLiteral("\u{663}".to_string())));
    assert_eq!(tokenize("\u{b2}"), Err(LexError::InvalidNumberLiteral("\u{b2}".to_string())));
}

#[test]
fn reads_the_largest_i32_and_leading_zeros() {
    assert_eq!(tokenize("2147483647 007").unwrap(), vec![Token::Number(2147483647), Token::Number(7)]);
}

#[test]
fn identifiers_keep_every_character() {
    assert_eq!(tokenize("héllo_wörld? x1").unwrap(), vec![ident("héllo_wörld?"), ident("x1")]);
    // A keyword only when the whole piece is the keyword.
    assert_eq!(tokenize("lets zero").unwrap(), vec![ident("lets"), ident("zero")]);
}

#[test]
fn whitespace_between_pieces_changes_nothing() {
    let tight = tokenize("let f=proc(x)-(x,1)in(f 3)").unwrap();
    let loose = tokenize(" let  f = proc ( x ) -( x ,\t1 )\nin ( f\u{3000}3 ) ").unwrap();
    assert_eq!(tight, loose);
    // The same holds of errors.
    assert_eq!(tokenize("12x"), tokenize(" 12x\n"));
    assert_eq!(tokenize("(\u{1}"), tokenize("( \u{1}"));
}

#[test]
fn whitespace_inside_a_word_splits_it() {
    assert_eq!(tokenize("ab").unwrap().len(), 1);
    assert_eq!(tokenize("a b").unwrap().len(), 2);
}
