use monkey_lang::lexer::Lexer;
use monkey_lang::token::Token;

fn lex(input: &str) -> Vec<Token> {
    let mut lexer = Lexer::new(input.to_string());
    let mut tokens = Vec::new();
    loop {
        let token = lexer.next_token();
        if token == Token::Eof {
            return tokens;
        }
        tokens.push(token);
    }
}

#[test]
fn empty_input_is_eof_forever() {
    let mut lexer = Lexer::new(String::new());
    assert_eq!(lexer.next_token(), Token::Eof);
    assert_eq!(lexer.next_token(), Token::Eof);
    assert_eq!(lexer.next_token(), Token::Eof);
}

#[test]
fn whitespace_only_is_eof() {
    let mut lexer = Lexer::new(" \t\r\n  ".to_string());
    assert_eq!(lexer.next_token(), Token::Eof);
    assert_eq!(lexer.next_token(), Token::Eof);
}

#[test]
fn every_kind_of_white_space_is_skipped() {
    assert_eq!(
        lex("a\u{9}b\u{a}c\u{b}d\u{c}e\u{d}f g\u{85}h\u{a0}i\u{2003}j\u{3000}k"),
        vec![
            Token::Ident("a".to_string()),
            Token::Ident("b".to_string()),
            Token::Ident("c".to_string()),
            Token::Ident("d".to_string()),
            Token::Ident("e".to_string()),
            Token::Ident("f".to_string()),
            Token::Ident("g".to_string()),
            Token::Ident("h".to_string()),
            Token::Ident("i".to_string()),
            Token::Ident("j".to_string()),
            Token::Ident("k".to_string()),
        ]
    );
}

#[test]
fn control_characters_are_no_white_space() {
    assert_eq!(
        lex("\u{1}\u{8}\u{e}\u{1f}\u{7f}"),
        vec![
            Token::Illegal('\u{1}'),
            Token::Illegal('\u{8}'),
            Token::Illegal('\u{e}'),
            Token::Illegal('\u{1f}'),
            Token::Illegal('\u{7f}'),
        ]
    );
}

#[test]
fn letters_are_told_from_other_characters() {
    assert_eq!(
        lex("azAZ @[`{ \u{d7}\u{df}\u{4e2d}"),
        vec![
            Token::Ident("azAZ".to_string()),
            Token::Illegal('@'),
            Token::Illegal('['),
            Token::Illegal('`'),
            Token::LBrace,
            Token::Illegal('\u{d7}'),
            Token::Ident("\u{df}\u{4e2d}".to_string()),
        ]
    );
}

#[test]
fn trailing_whitespace_then_eof() {
    let mut lexer = Lexer::new("x  \n".to_string());
    assert_eq!(lexer.next_token(), Token::Ident("x".to_string()));
    assert_eq!(lexer.next_token(), Token::Eof);
    assert_eq!(lexer.next_token(), Token::Eof);
}

#[test]
fn two_character_operators() {
    assert_eq!(
        lex("= == ! != =! ==="),
        vec![
            Token::Assign,
            Token::Eq,
            Token::Bang,
            Token::NotEq,
            Token::Assign,
            Token::Bang,
            Token::Eq,
            Token::Assign,
        ]
    );
}

#[test]
fn operator_at_end_of_input() {
    assert_eq!(lex("="), vec![Token::Assign]);
    assert_eq!(lex("!"), vec![Token::Bang]);
    assert_eq!(lex("a=="), vec![Token::Ident("a".to_string()), Token::Eq]);
}

#[test]
fn keywords_and_identifiers() {
    assert_eq!(
        lex("fn let true false if else return fnx lets _a a_b"),
        vec![
            Token::Function,
            Token::Let,
            Token::True,
            Token::False,
            Token::If,
            Token::Else,
            Token::Return,
            Token::Ident("fnx".to_string()),
            Token::Ident("lets".to_string()),
            Token::Ident("_a".to_string()),
            Token::Ident("a_b".to_string()),
        ]
    );
}

#[test]
fn digits_end_an_identifier() {
    assert_eq!(
        lex("a1 2b"),
        vec![
            Token::Ident("a".to_string()),
            Token::Int(1),
            Token::Int(2),
            Token::Ident("b".to_string()),
        ]
    );
}

#[test]
fn integers() {
    assert_eq!(lex("0"), vec![Token::Int(0)]);
    assert_eq!(lex("007"), vec![Token::Int(7)]);
    assert_eq!(lex("1234567890"), vec![Token::Int(1234567890)]);
    assert_eq!(
        lex("9223372036854775807"),
        vec![Token::Int(9223372036854775807)]
    );
}

#[test]
fn integer_too_large_is_illegal() {
    assert_eq!(lex("9223372036854775808"), vec![Token::Illegal('9')]);
    assert_eq!(
        lex("123456789012345678901234567890 + 1"),
        vec![Token::Illegal('1'), Token::Plus, Token::Int(1)]
    );
}

#[test]
fn other_characters_are_illegal() {
    assert_eq!(
        lex("a @ # \u{0} $"),
        vec![
            Token::Ident("a".to_string()),
            Token::Illegal('@'),
            Token::Illegal('#'),
            Token::Illegal('\u{0}'),
            Token::Illegal('$'),
        ]
    );
}

#[test]
fn letters_beyond_ascii_are_identifier_characters() {
    assert_eq!(lex("é ñandú"), vec![
        Token::Ident("é".to_string()),
        Token::Ident("ñandú".to_string()),
    ]);
}

#[test]
fn token_text() {
    assert_eq!(Token::Ident("abc".to_string()).to_string(), "abc");
    assert_eq!(Token::Int(0).to_string(), "0");
    assert_eq!(Token::Int(5).to_string(), "5");
    assert_eq!(Token::Int(1203).to_string(), "1203");
    assert_eq!(Token::Int(-42).to_string(), "-42");
    assert_eq!(Token::Int(i64::MAX).to_string(), "9223372036854775807");
    assert_eq!(Token::Int(i64::MIN).to_string(), "-9223372036854775808");
    assert_eq!(Token::Plus.to_string(), "+");
    assert_eq!(Token::NotEq.to_string(), "!=");
    assert_eq!(Token::Function.to_string(), "FUNCTION");
    assert_eq!(Token::Illegal('x').to_string(), "ILLEGAL");
    assert_eq!(Token::Eof.to_string(), "EOF");
}

#[test]
fn same_token() {
    assert!(Token::Ident("a".to_string()).same(&Token::Ident("a".to_string())));
    assert!(!Token::Ident("a".to_string()).same(&Token::Ident("b".to_string())));
    assert!(!Token::Int(1).same(&Token::Int(2)));
    assert!(Token::RParen.same(&Token::RParen));
    assert!(!Token::RParen.same(&Token::LParen));
}
