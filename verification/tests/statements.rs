use overclock::basic;
use overclock::grammar::IntError;
use overclock::lex::Token;
use overclock::parse::{assign, expr, int_literal, var, Expr, Statement, SyntaxError};

#[test]
fn parse_test_int() {
    assert_eq!(int_literal("123"), Ok(Expr::Int(123)));
    assert_eq!(int_literal("0"), Ok(Expr::Int(0)));
}

#[test]
fn parse_test_var() {
    assert_eq!(var("foo"), Ok(Expr::Var("foo".to_string())));
    assert_eq!(var("x_y1"), Ok(Expr::Var("x_y1".to_string())));
}

#[test]
fn parse_test_expr() {
    assert_eq!(expr("42"), Ok(Expr::Int(42)));
    assert_eq!(expr("my_var"), Ok(Expr::Var("my_var".to_string())));
}

#[test]
fn parse_test_assign() {
    let input = "x = 5 // some comment";
    assert_eq!(
        assign(input),
        Ok(Statement::Assign("x".to_string(), Expr::Int(5)))
    );

    let input2 = "   count   =   counter  ";
    assert_eq!(
        assign(input2),
        Ok(Statement::Assign(
            "count".to_string(),
            Expr::Var("counter".to_string())
        ))
    );
}

#[test]
fn stmt_test_assign() {
    let input = "x = 5 // some comment";
    assert_eq!(
        overclock::stmt::assign(input),
        Ok(overclock::stmt::Statement::Assign("x".to_string(), Expr::Int(5)))
    );

    let input2 = "   count   =   counter  ";
    assert_eq!(
        overclock::stmt::assign(input2),
        Ok(overclock::stmt::Statement::Assign(
            "count".to_string(),
            Expr::Var("counter".to_string())
        ))
    );
}

#[test]
fn statement_edge_cases() {
    // a leading zero ends the integer, and what follows is left over
    assert_eq!(int_literal("0123"), Err(SyntaxError));
    assert_eq!(expr("0123"), Err(SyntaxError));
    assert_eq!(int_literal(""), Err(SyntaxError));
    assert_eq!(int_literal("2147483647"), Ok(Expr::Int(i32::MAX)));
    assert_eq!(
        assign("// c\n y//d\n=\tz // e"),
        Ok(Statement::Assign("y".to_string(), Expr::Var("z".to_string())))
    );
    assert_eq!(assign("x = "), Err(SyntaxError));
    assert_eq!(assign("= 5"), Err(SyntaxError));
    assert_eq!(assign("x = 5 y"), Err(SyntaxError));
}

#[test]
fn expr_test_int() {
    let input = [Token::Int("123".to_string())];
    assert_eq!(basic::parse_all(&input[..]), Some(basic::Expr::Int(123)));
}

#[test]
fn expr_test_var() {
    let input = [Token::Ident("foo".to_string())];
    assert_eq!(
        basic::parse_all(&input[..]),
        Some(basic::Expr::Var("foo".to_string()))
    );
}

#[test]
fn expr_test_assign() {
    let input = [
        Token::Ident("x".to_string()),
        Token::Assign,
        Token::Int("5".to_string()),
    ];
    assert_eq!(
        basic::parse_all(&input[..]),
        Some(basic::Expr::Assign(
            "x".to_string(),
            Box::new(basic::Expr::Int(5))
        ))
    );
}

#[test]
fn expr_test_expr() {
    let input_int = [Token::Int("42".to_string())];
    let input_var = [Token::Ident("my_var".to_string())];

    assert_eq!(basic::parse_all(&input_int[..]), Some(basic::Expr::Int(42)));
    assert_eq!(
        basic::parse_all(&input_var[..]),
        Some(basic::Expr::Var("my_var".to_string()))
    );
}

#[test]
fn basic_grammar_edge_cases() {
    let input = [Token::Ident("x".to_string()), Token::Assign];
    assert_eq!(basic::parse_all(&input[..]), None);
    let input = [Token::Int("99999999999999999999".to_string())];
    assert_eq!(basic::parse_all(&input[..]), None);
    assert_eq!(basic::int_lit(&input[..], 0), Err(IntError::NotValid64));
    assert_eq!(basic::int_lit(&input[..], 1), Err(IntError::NotAnInteger));
    assert_eq!(
        basic::int_lit(&[Token::Int("7".to_string())][..], 0),
        Ok((basic::Expr::Int(7), 1))
    );
}
