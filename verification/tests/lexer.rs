use overclock::lex::{lexer, LexError, Token};

#[test]
fn lexes_symbols_numbers_and_words() {
    let toks = lexer("x = [1, 2.5] -> f(y) => 'c' :: a: Void true false .-+").unwrap();
    assert_eq!(
        toks,
        vec![
            Token::Ident("x".to_string()),
            Token::Assign,
            Token::LBracket,
            Token::Int("1".to_string()),
            Token::Comma,
            Token::Float("2.5".to_string()),
            Token::RBracket,
            Token::Arrow,
            Token::Ident("f".to_string()),
            Token::LParen,
            Token::Ident("y".to_string()),
            Token::RParen,
            Token::MapArrow,
            Token::Char('c'),
            Token::DoubleColon,
            Token::Ident("a".to_string()),
            Token::Colon,
            Token::Void,
            Token::Bool(true),
            Token::Bool(false),
            Token::Dot,
            Token::Minus,
            Token::Plus,
        ]
    );
}

#[test]
fn lexes_number_edge_cases() {
    assert_eq!(
        lexer("1.").unwrap(),
        vec![Token::Int("1".to_string()), Token::Dot]
    );
    assert_eq!(
        lexer("2.x").unwrap(),
        vec![Token::Int("2".to_string()), Token::Dot, Token::Ident("x".to_string())]
    );
    assert_eq!(lexer("007").unwrap(), vec![Token::Int("007".to_string())]);
    assert_eq!(
        lexer("self.-1").unwrap(),
        vec![
            Token::Ident("self".to_string()),
            Token::Dot,
            Token::Minus,
            Token::Int("1".to_string())
        ]
    );
}

#[test]
fn lexer_whitespace_rules() {
    assert_eq!(lexer("").unwrap(), vec![]);
    assert_eq!(lexer(" x\n").unwrap(), vec![Token::Ident("x".to_string())]);
    // whitespace alone is not read: nothing starts a token after it
    assert_eq!(lexer("   "), Err(LexError { at: 0 }));
    assert_eq!(lexer("x $"), Err(LexError { at: 2 }));
    assert_eq!(lexer("''"), Err(LexError { at: 0 }));
    assert_eq!(lexer("' '").unwrap(), vec![Token::Char(' ')]);
}

#[test]
fn lexer_reads_unicode_whitespace() {
    let xy = vec![Token::Ident("x".to_string()), Token::Ident("y".to_string())];
    assert_eq!(lexer("x\u{a0}y").unwrap(), xy);
    assert_eq!(lexer("x\u{3000}y").unwrap(), xy);
    assert_eq!(lexer("x\u{2028}y").unwrap(), xy);
    assert_eq!(lexer("x\u{200b}y"), Err(LexError { at: 1 }));
}

#[test]
fn a_space_only_separates_tokens() {
    let pairs = [("1", ".5"), ("a", "-> b"), ("x =", "y"), ("", "f(1)"), ("[1, 2]", "")];
    for (a, b) in pairs {
        let mut both = lexer(a).unwrap();
        both.extend(lexer(b).unwrap());
        assert_eq!(lexer(&format!("{} {}", a, b)).unwrap(), both);
    }
    assert_eq!(
        lexer("1 .5").unwrap(),
        vec![Token::Int("1".to_string()), Token::Dot, Token::Int("5".to_string())]
    );
    assert_eq!(lexer(" "), Err(LexError { at: 0 }));
}

#[test]
fn lexer_makes_no_layout_tokens() {
    let tokens = lexer("a\n  -> b\n\t-> c").unwrap();
    assert!(!tokens
        .iter()
        .any(|t| matches!(t, Token::Indent | Token::Dedent | Token::Newline)));
    assert_eq!(tokens.len(), 5);
}
