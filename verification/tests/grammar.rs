use overclock::ast::{BinaryOp, Expr, Literal};
use overclock::grammar::{
    add_sub_op, atom, binary, bool_lit, char_lit, colon_member_op, dot_member_op, expr, float_lit,
    int_lit, lambda, lambda_only, pipe, pipe_op, postfix, var, PostfixOp,
};
use overclock::lex::{lexer, Token};
use overclock::grammar::IntError;
use overclock::parser::{parse, parse_tokens, ParseError, ParseReason};

fn whole(r: Option<(Expr, usize)>, n: usize) -> Expr {
    let (e, q) = r.unwrap();
    assert_eq!(q, n);
    e
}

#[test]
fn test_bool() {
    let tokens = lexer("true").unwrap();
    let ast = whole(bool_lit(&tokens, 0), tokens.len());
    assert_eq!(ast, Expr::Lit(Literal::Bool(true)));
}

#[test]
fn atom_test_int() {
    let tokens = lexer("123").unwrap();
    let ast = whole(int_lit(&tokens, 0).ok(), tokens.len());
    assert_eq!(ast, Expr::Lit(Literal::Int(123)));
}

#[test]
fn test_float() {
    let tokens = lexer("3.14").unwrap();
    let ast = whole(float_lit(&tokens, 0), tokens.len());
    match ast {
        Expr::Lit(Literal::Float(text)) => assert_eq!(text.parse::<f64>().unwrap(), 3.14),
        other => panic!("Expected float, got {:?}", other),
    }
}

#[test]
fn test_char() {
    let tokens = lexer("'a'").unwrap();
    let ast = whole(char_lit(&tokens, 0), tokens.len());
    assert_eq!(ast, Expr::Lit(Literal::Char('a')));
}

#[test]
fn atom_test_var() {
    let tokens = lexer("foo").unwrap();
    let ast = whole(var(&tokens, 0), tokens.len());
    assert_eq!(ast, Expr::Var("foo".to_string()));
}

#[test]
fn test_add_op() {
    let tokens = lexer("+").unwrap();
    let (op, q) = add_sub_op(&tokens, 0).unwrap();
    assert_eq!(q, tokens.len());
    assert_eq!(op, BinaryOp::Add);
}

#[test]
fn test_lambda_only() {
    let tokens = lexer("x => 42").unwrap();
    let ast = whole(lambda_only(&tokens, 0), tokens.len());
    if let Expr::Lambda(name, _) = ast {
        assert_eq!(name, "x");
    } else {
        panic!("Expected Lambda");
    }
}

#[test]
fn test_pipe_op() {
    let tokens = lexer("->").unwrap();
    let (tok, q) = pipe_op(&tokens, 0).unwrap();
    assert_eq!(tok, Token::Arrow);
    assert_eq!(q, tokens.len());
}

#[test]
fn test_dot_member_op() {
    let tokens = lexer(".foo").unwrap();
    let (op, q) = dot_member_op(&tokens, 0).unwrap();
    assert_eq!(q, tokens.len());
    match op {
        PostfixOp::Member(name) => assert_eq!(name, "foo"),
        _ => panic!("Expected Member"),
    }
}

#[test]
fn test_colon_member_op() {
    let tokens = lexer("::bar").unwrap();
    let (op, q) = colon_member_op(&tokens, 0).unwrap();
    assert_eq!(q, tokens.len());
    match op {
        PostfixOp::Member(name) => assert_eq!(name, "bar"),
        _ => panic!("Expected Member"),
    }
}

#[test]
fn test_fibonacci_pipeline() {
    let src = "fibbonacci = [1, 2] -> (_ => self.-1 + self.-2)";
    let tokens = lexer(src).unwrap();
    let ast = whole(expr(&tokens, 0), tokens.len());

    match ast {
        Expr::Assign(name, body) => {
            assert_eq!(name, "fibbonacci");
            match *body {
                Expr::Pipe(lhs, rhs) => {
                    if let Expr::List(items) = *lhs {
                        assert_eq!(items.len(), 2);
                    } else {
                        panic!("Expected list, got {:?}", lhs);
                    }
                    if let Expr::Lambda(arg, body) = *rhs {
                        assert_eq!(arg, "_");
                        if let Expr::Binary(l, op, r) = *body {
                            assert_eq!(op, BinaryOp::Add);
                            match (*l, *r) {
                                (Expr::Member(_, m1), Expr::Member(_, m2)) => {
                                    assert_eq!(m1, "-1");
                                    assert_eq!(m2, "-2");
                                }
                                _ => panic!("Expected members"),
                            }
                        }
                    }
                }
                _ => panic!("Expected pipe"),
            }
        }
        _ => panic!("Expected assignment"),
    }
}

#[test]
fn test_console_pipeline() {
    let src = "fibbonacci -> take(10) -> Console::out";
    let tokens = lexer(src).unwrap();
    let ast = whole(expr(&tokens, 0), tokens.len());

    if let Expr::Pipe(lhs, rhs) = ast {
        if let Expr::Pipe(l, m) = *lhs {
            assert_eq!(*l, Expr::Var("fibbonacci".to_string()));
            match *m {
                Expr::Call(f, args) => {
                    assert_eq!(*f, Expr::Var("take".to_string()));
                    assert_eq!(args.len(), 1);
                }
                _ => panic!("Expected call"),
            }
        }
        match *rhs {
            Expr::Member(e, name) => {
                assert_eq!(*e, Expr::Var("Console".to_string()));
                assert_eq!(name, "out");
            }
            _ => panic!("Expected member access"),
        }
    } else {
        panic!("Expected pipe chain");
    }
}

fn v(s: &str) -> Box<Expr> {
    Box::new(Expr::Var(s.to_string()))
}

#[test]
fn binary_and_pipe_are_left_associative() {
    let tokens = lexer("a - b + c").unwrap();
    let ast = whole(binary(&tokens, 0), tokens.len());
    assert_eq!(
        ast,
        Expr::Binary(
            Box::new(Expr::Binary(v("a"), BinaryOp::Sub, v("b"))),
            BinaryOp::Add,
            v("c")
        )
    );
    let tokens = lexer("a -> b -> c").unwrap();
    let ast = whole(pipe(&tokens, 0), tokens.len());
    assert_eq!(ast, Expr::Pipe(Box::new(Expr::Pipe(v("a"), v("b"))), v("c")));
}

#[test]
fn postfix_chains_and_groups() {
    let tokens = lexer("f(x,)(y).z").unwrap();
    let ast = whole(postfix(&tokens, 0), tokens.len());
    assert_eq!(
        ast,
        Expr::Member(
            Box::new(Expr::Call(
                Box::new(Expr::Call(v("f"), vec![Expr::Var("x".to_string())])),
                vec![Expr::Var("y".to_string())]
            )),
            "z".to_string()
        )
    );
    let tokens = lexer("(a)").unwrap();
    assert_eq!(whole(atom(&tokens, 0), tokens.len()), Expr::Var("a".to_string()));
    let tokens = lexer("[]").unwrap();
    assert_eq!(whole(atom(&tokens, 0), tokens.len()), Expr::List(vec![]));
    // a lone comma is no list item
    let tokens = lexer("[,]").unwrap();
    assert_eq!(atom(&tokens, 0), None);
    let tokens = lexer("x => y -> z").unwrap();
    assert_eq!(
        whole(lambda(&tokens, 0), tokens.len()),
        Expr::Lambda("x".to_string(), Box::new(Expr::Pipe(v("y"), v("z"))))
    );
}

#[test]
fn integers_must_fit_64_bits() {
    let tokens = lexer("9223372036854775807").unwrap();
    assert_eq!(
        whole(int_lit(&tokens, 0).ok(), tokens.len()),
        Expr::Lit(Literal::Int(i64::MAX))
    );
    let tokens = lexer("9223372036854775808").unwrap();
    assert_eq!(int_lit(&tokens, 0), Err(IntError::NotValid64));
    assert_eq!(
        parse_tokens(&tokens),
        Err(ParseError { at: 0, reason: ParseReason::NotValid64 })
    );
    // texts of hand-made tokens follow `str::parse::<i64>`
    let tokens = vec![Token::Int("-5".to_string())];
    assert_eq!(whole(int_lit(&tokens, 0).ok(), 1), Expr::Lit(Literal::Int(-5)));
    let tokens = vec![Token::Int("+".to_string())];
    assert_eq!(int_lit(&tokens, 0), Err(IntError::NotValid64));
    let tokens = vec![Token::Ident("x".to_string())];
    assert_eq!(int_lit(&tokens, 0), Err(IntError::NotAnInteger));
    assert_eq!(int_lit(&tokens, 1), Err(IntError::NotAnInteger));
}

#[test]
fn parse_entry_point() {
    assert_eq!(
        parse("x = 5").unwrap(),
        Expr::Assign("x".to_string(), Box::new(Expr::Lit(Literal::Int(5))))
    );
    assert_eq!(
        parse("x $").unwrap_err(),
        "Lexer errors: no token at character 2"
    );
    assert_eq!(
        parse("a b").unwrap_err(),
        "Parser errors: unexpected token at position 1"
    );
    assert_eq!(
        parse("").unwrap_err(),
        "Parser errors: unexpected token at position 0"
    );
}

#[test]
fn parse_reports_integers_that_do_not_fit() {
    assert_eq!(
        parse("9223372036854775808").unwrap_err(),
        "Parser errors: Not a valid 64-bit integer at position 0"
    );
    assert_eq!(
        parse("1 + 99999999999999999999").unwrap_err(),
        "Parser errors: Not a valid 64-bit integer at position 2"
    );
    assert_eq!(
        parse("[1, 99999999999999999999]").unwrap_err(),
        "Parser errors: Not a valid 64-bit integer at position 3"
    );
    let tokens = lexer("x -> f(99999999999999999999)").unwrap();
    assert_eq!(
        parse_tokens(&tokens),
        Err(ParseError { at: 4, reason: ParseReason::NotValid64 })
    );
    let tokens = lexer("a b 5").unwrap();
    assert_eq!(
        parse_tokens(&tokens),
        Err(ParseError { at: 1, reason: ParseReason::Unexpected })
    );
    assert_eq!(parse("9223372036854775807").unwrap(), Expr::Lit(Literal::Int(i64::MAX)));
}

#[test]
fn float_literals_hold_their_value() {
    let lit = |s: &str| Expr::Lit(Literal::Float(s.to_string()));
    assert_eq!(parse("3.10").unwrap(), lit("3.1"));
    assert_eq!(parse("3.10").unwrap(), parse("3.1").unwrap());
    assert_eq!(parse("2.00").unwrap(), lit("2"));
    assert_eq!(parse("00.5").unwrap(), lit("0.5"));
    let tokens = vec![Token::Float("10.250".to_string())];
    assert_eq!(whole(float_lit(&tokens, 0), 1), lit("10.25"));
}
