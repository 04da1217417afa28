use overclock::ast::{BinaryOp, Expr, Literal};

#[test]
fn test_pretty_print_simple() {
    let expr = Expr::Binary(
        Box::new(Expr::Lit(Literal::Int(1))),
        BinaryOp::Add,
        Box::new(Expr::Lit(Literal::Int(2))),
    );
    assert_eq!(expr.pretty_print(0), "1 + 2");
}

#[test]
fn test_pretty_print_pipe() {
    let expr = Expr::Pipe(
        Box::new(Expr::Var("data".to_string())),
        Box::new(Expr::Var("process".to_string())),
    );
    // data
    //   -> process
    assert_eq!(expr.pretty_print(0), "data\n  -> process");
}

#[test]
fn test_pretty_print_complex() {
    // pipeline = [1, 2] -> x => x + 10 -> Console.out()
    // This is left-associative: ([1, 2] -> (x => x + 10)) -> Console.out
    let expr = Expr::Assign(
        "pipeline".to_string(),
        Box::new(Expr::Pipe(
            Box::new(Expr::Pipe(
                Box::new(Expr::List(vec![
                    Expr::Lit(Literal::Int(1)),
                    Expr::Lit(Literal::Int(2)),
                ])),
                Box::new(Expr::Lambda(
                    "x".to_string(),
                    Box::new(Expr::Binary(
                        Box::new(Expr::Var("x".to_string())),
                        BinaryOp::Add,
                        Box::new(Expr::Lit(Literal::Int(10))),
                    )),
                )),
            )),
            Box::new(Expr::Call(
                Box::new(Expr::Member(
                    Box::new(Expr::Var("Console".to_string())),
                    "out".to_string(),
                )),
                vec![],
            )),
        )),
    );

    let printed = expr.pretty_print(0);
    // pipeline = [1, 2]
    //   -> x => x + 10
    //   -> Console.out()
    assert!(printed.contains("pipeline = [1, 2]"));
    assert!(printed.contains("\n  -> x => x + 10"));
    assert!(printed.contains("\n  -> Console.out()"));
}

#[test]
fn pretty_print_literals() {
    assert_eq!(Expr::Lit(Literal::Bool(true)).pretty_print(0), "true");
    assert_eq!(Expr::Lit(Literal::Bool(false)).pretty_print(3), "false");
    assert_eq!(Expr::Lit(Literal::Int(-42)).pretty_print(0), "-42");
    assert_eq!(Expr::Lit(Literal::Int(i64::MIN)).pretty_print(0), "-9223372036854775808");
    assert_eq!(Expr::Lit(Literal::Int(0)).pretty_print(0), "0");
    assert_eq!(Expr::Lit(Literal::Float("3.14".to_string())).pretty_print(0), "3.14");
    assert_eq!(Expr::Lit(Literal::Char('a')).pretty_print(0), "'a'");
    assert_eq!(Literal::Int(7).to_text(), "7");
    assert_eq!(BinaryOp::Sub.to_text(), "-");
}

#[test]
fn pretty_print_nested_pipes_and_depth() {
    // a -> b -> c printed at depth 1: the second stage of a chain stays at the chain's depth
    let chain = Expr::Pipe(
        Box::new(Expr::Pipe(
            Box::new(Expr::Var("a".to_string())),
            Box::new(Expr::Var("b".to_string())),
        )),
        Box::new(Expr::Var("c".to_string())),
    );
    assert_eq!(chain.pretty_print(1), "a\n    -> b\n    -> c");
    // a pipe on the right of a pipe is printed one level deeper
    let nested = Expr::Pipe(
        Box::new(Expr::Var("a".to_string())),
        Box::new(Expr::Pipe(
            Box::new(Expr::Var("b".to_string())),
            Box::new(Expr::Var("c".to_string())),
        )),
    );
    assert_eq!(nested.pretty_print(0), "a\n  -> b\n    -> c");
    // leading whitespace of a stage is trimmed
    let spaced = Expr::Pipe(
        Box::new(Expr::Var("a".to_string())),
        Box::new(Expr::Var("  \tb".to_string())),
    );
    assert_eq!(spaced.pretty_print(0), "a\n  -> b");
}

#[test]
fn pretty_print_lists_calls_members() {
    let e = Expr::Call(
        Box::new(Expr::Var("f".to_string())),
        vec![Expr::Var("x".to_string()), Expr::List(vec![]), Expr::Lit(Literal::Int(3))],
    );
    assert_eq!(e.pretty_print(0), "f(x, [], 3)");
    let m = Expr::Member(Box::new(Expr::Var("self".to_string())), "-1".to_string());
    assert_eq!(m.pretty_print(0), "self.-1");
    let l = Expr::Lambda("x".to_string(), Box::new(Expr::Var("x".to_string())));
    assert_eq!(l.pretty_print(0), "x => x");
    assert_eq!(l.clone(), l);
}

#[test]
fn depth_shows_only_in_pipes() {
    let v = |s: &str| Box::new(Expr::Var(s.to_string()));
    let sum = Expr::Binary(v("a"), BinaryOp::Sub, v("b"));
    assert_eq!(sum.pretty_print(0), sum.pretty_print(3));
    let list = Expr::List(vec![Expr::Var("a".to_string()), Expr::Lit(Literal::Int(-2))]);
    assert_eq!(list.pretty_print(0), "[a, -2]");
    assert_eq!(list.pretty_print(5), "[a, -2]");
    let call = Expr::Call(v("f"), vec![Expr::Pipe(v("x"), v("y"))]);
    assert_eq!(call.pretty_print(0), call.pretty_print(2));
}

#[test]
fn pipe_chain_prints_one_stage_per_line() {
    let v = |s: &str| Box::new(Expr::Var(s.to_string()));
    let chain = Expr::Pipe(Box::new(Expr::Pipe(Box::new(Expr::Pipe(v("a"), v("b"))), v("c"))), v("d"));
    assert_eq!(chain.pretty_print(0), "a\n  -> b\n  -> c\n  -> d");
    assert_eq!(chain.pretty_print(1), "a\n    -> b\n    -> c\n    -> d");
    // leading whitespace of a stage is dropped after the arrow
    let padded = Expr::Pipe(v("a"), v(" b"));
    assert_eq!(padded.pretty_print(0), "a\n  -> b");
}

#[test]
fn floats_print_as_their_value_is_displayed() {
    let f = |s: &str| Expr::Lit(Literal::Float(s.to_string())).pretty_print(0);
    assert_eq!(f("3.10"), "3.1");
    assert_eq!(f("2.0"), "2");
    assert_eq!(f("007.50"), "7.5");
    assert_eq!(f("0.000"), "0");
    assert_eq!(f("0.25"), "0.25");
    assert_eq!(f("120.5"), "120.5");
    // text that is not a numeral with a point is written as it is
    assert_eq!(f("12"), "12");
    assert_eq!(f("1e5"), "1e5");
    for s in ["3.10", "2.0", "007.50", "0.25", "120.5", "1.000001"] {
        assert_eq!(f(s), format!("{}", s.parse::<f64>().unwrap()));
    }
}
