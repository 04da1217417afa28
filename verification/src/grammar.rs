//! The expression grammar over tokens.
//!
//! Each parser reads the tokens from a position on and, where it succeeds, yields the
//! expression it read and the position after it. Alternatives are tried in order and the
//! first that succeeds is taken; a repetition takes as many rounds as succeed, and a round
//! that fails is undone. Operators are left-associative.

use vstd::prelude::*;
use crate::ast::{
    BinaryOp, Expr, Literal, SpecExpr, SpecLiteral, exprs_view, expr_view, lemma_call_view,
    lemma_list_view,
};
use crate::lex::{SpecToken, Token, tokens_view};
use crate::text::{chars_of, float_display, float_text, parse_i64, std_parse_i64};

verus! {

/// A postfix operation: a call with arguments, or a member access.
pub enum PostfixOp {
    Call(Vec<Expr>),
    Member(String),
}

/// The mathematical value of a [`PostfixOp`].
pub enum SpecPostfixOp {
    Call(Seq<SpecExpr>),
    Member(Seq<char>),
}

impl View for PostfixOp {
    type V = SpecPostfixOp;

    open spec fn view(&self) -> SpecPostfixOp {
        match self {
            PostfixOp::Call(args) => SpecPostfixOp::Call(exprs_view(args@)),
            PostfixOp::Member(m) => SpecPostfixOp::Member(m@),
        }
    }
}

/// The first of two results that is `Some`.
pub open spec fn first_of<A>(a: Option<A>, b: Option<A>) -> Option<A> {
    if a is Some {
        a
    } else {
        b
    }
}

// ---------------------------------------------------------------------------
// Atoms
// ---------------------------------------------------------------------------

/// A boolean literal token.
pub open spec fn bool_at(t: Seq<SpecToken>, p: int) -> Option<(SpecExpr, int)> {
    if 0 <= p < t.len() && t[p] is Bool {
        Some((SpecExpr::Lit(SpecLiteral::Bool(t[p]->Bool_0)), p + 1))
    } else {
        None
    }
}

/// A float literal token, its numeral written in the form `Display` writes its value.
pub open spec fn float_at(t: Seq<SpecToken>, p: int) -> Option<(SpecExpr, int)> {
    if 0 <= p < t.len() && t[p] is Float {
        Some((SpecExpr::Lit(SpecLiteral::Float(float_text(t[p]->Float_0))), p + 1))
    } else {
        None
    }
}

/// An integer literal token whose text `str::parse::<i64>` accepts.
pub open spec fn int_at(t: Seq<SpecToken>, p: int) -> Option<(SpecExpr, int)> {
    if 0 <= p < t.len() && t[p] is Int {
        match std_parse_i64(t[p]->Int_0) {
            Some(v) => Some((SpecExpr::Lit(SpecLiteral::Int(v)), p + 1)),
            None => None,
        }
    } else {
        None
    }
}

/// A character literal token.
pub open spec fn char_at(t: Seq<SpecToken>, p: int) -> Option<(SpecExpr, int)> {
    if 0 <= p < t.len() && t[p] is Char {
        Some((SpecExpr::Lit(SpecLiteral::Char(t[p]->Char_0)), p + 1))
    } else {
        None
    }
}

/// An identifier token, read as a variable.
pub open spec fn var_at(t: Seq<SpecToken>, p: int) -> Option<(SpecExpr, int)> {
    if 0 <= p < t.len() && t[p] is Ident {
        Some((SpecExpr::Var(t[p]->Ident_0), p + 1))
    } else {
        None
    }
}

/// `[` items `]`
pub open spec fn list_at(t: Seq<SpecToken>, p: int) -> Option<(SpecExpr, int)>
    decreases t.len() - p, 2nat,
{
    if 0 <= p < t.len() && t[p] is LBracket {
        let (items, r) = parse_items(t, p + 1);
        if 0 <= r < t.len() && t[r] is RBracket {
            Some((SpecExpr::List(items), r + 1))
        } else {
            None
        }
    } else {
        None
    }
}

/// `(` expression `)`
pub open spec fn group_at(t: Seq<SpecToken>, p: int) -> Option<(SpecExpr, int)>
    decreases t.len() - p, 2nat,
{
    if 0 <= p < t.len() && t[p] is LParen {
        match parse_expr(t, p + 1) {
            Some((e, r)) => if 0 <= r < t.len() && t[r] is RParen {
                Some((e, r + 1))
            } else {
                None
            },
            None => None,
        }
    } else {
        None
    }
}

/// An atom: a literal, a variable, a list, or a parenthesized expression.
pub open spec fn parse_atom(t: Seq<SpecToken>, p: int) -> Option<(SpecExpr, int)>
    decreases t.len() - p, 3nat,
{
    first_of(
        bool_at(t, p),
        first_of(
            float_at(t, p),
            first_of(
                int_at(t, p),
                first_of(
                    char_at(t, p),
                    first_of(var_at(t, p), first_of(list_at(t, p), group_at(t, p))),
                ),
            ),
        ),
    )
}

/// Expressions separated by commas, a trailing comma allowed, possibly none; never fails.
pub open spec fn parse_items(t: Seq<SpecToken>, p: int) -> (Seq<SpecExpr>, int)
    decreases t.len() - p, 13nat,
{
    match parse_expr(t, p) {
        None => (Seq::empty(), p),
        Some((e, q)) => if p < q <= t.len() {
            let (rest, r) = items_tail(t, q);
            (seq![e] + rest, r)
        } else {
            (seq![e], q)
        },
    }
}

/// Further `,` expression rounds after a first item ending at `q`.
pub open spec fn items_tail(t: Seq<SpecToken>, q: int) -> (Seq<SpecExpr>, int)
    decreases t.len() - q, 13nat,
{
    if 0 <= q < t.len() && t[q] is Comma {
        match parse_expr(t, q + 1) {
            Some((e, r)) => if q < r <= t.len() {
                let (rest, s) = items_tail(t, r);
                (seq![e] + rest, s)
            } else {
                (seq![e], r)
            },
            None => (Seq::empty(), q + 1),
        }
    } else {
        (Seq::empty(), q)
    }
}

// ---------------------------------------------------------------------------
// Postfix operations
// ---------------------------------------------------------------------------

/// `(` arguments `)`
pub open spec fn call_op_at(t: Seq<SpecToken>, q: int) -> Option<(SpecPostfixOp, int)>
    decreases t.len() - q, 2nat,
{
    if 0 <= q < t.len() && t[q] is LParen {
        let (args, r) = parse_items(t, q + 1);
        if 0 <= r < t.len() && t[r] is RParen {
            Some((SpecPostfixOp::Call(args), r + 1))
        } else {
            None
        }
    } else {
        None
    }
}

/// `.` name, or `.-` integer (a member named by the integer with a `-` before it).
pub open spec fn dot_member_at(t: Seq<SpecToken>, q: int) -> Option<(SpecPostfixOp, int)> {
    if 0 <= q && q + 1 < t.len() && t[q] is Dot {
        if t[q + 1] is Ident {
            Some((SpecPostfixOp::Member(t[q + 1]->Ident_0), q + 2))
        } else if q + 2 < t.len() && t[q + 1] is Minus && t[q + 2] is Int {
            Some((SpecPostfixOp::Member(seq!['-'] + t[q + 2]->Int_0), q + 3))
        } else {
            None
        }
    } else {
        None
    }
}

/// `::` name
pub open spec fn colon_member_at(t: Seq<SpecToken>, q: int) -> Option<(SpecPostfixOp, int)> {
    if 0 <= q && q + 1 < t.len() && t[q] is DoubleColon && t[q + 1] is Ident {
        Some((SpecPostfixOp::Member(t[q + 1]->Ident_0), q + 2))
    } else {
        None
    }
}

/// A postfix operation: a call, a `.` member or a `::` member.
pub open spec fn postfix_op_at(t: Seq<SpecToken>, q: int) -> Option<(SpecPostfixOp, int)>
    decreases t.len() - q, 3nat,
{
    first_of(call_op_at(t, q), first_of(dot_member_at(t, q), colon_member_at(t, q)))
}

/// The expression that a postfix operation makes of `acc`.
pub open spec fn apply_postfix(acc: SpecExpr, op: SpecPostfixOp) -> SpecExpr {
    match op {
        SpecPostfixOp::Call(args) => SpecExpr::Call(Box::new(acc), args),
        SpecPostfixOp::Member(m) => SpecExpr::Member(Box::new(acc), m),
    }
}

/// An atom followed by any number of postfix operations, folded from the left.
pub open spec fn parse_postfix(t: Seq<SpecToken>, p: int) -> Option<(SpecExpr, int)>
    decreases t.len() - p, 5nat,
{
    match parse_atom(t, p) {
        None => None,
        Some((a, q)) => if p < q <= t.len() {
            postfix_tail(t, q, a)
        } else {
            Some((a, q))
        },
    }
}

/// Further postfix operations on `acc`, from `q` on.
pub open spec fn postfix_tail(t: Seq<SpecToken>, q: int, acc: SpecExpr) -> Option<(SpecExpr, int)>
    decreases t.len() - q, 4nat,
{
    match postfix_op_at(t, q) {
        Some((op, r)) => if q < r <= t.len() {
            postfix_tail(t, r, apply_postfix(acc, op))
        } else {
            Some((apply_postfix(acc, op), r))
        },
        None => Some((acc, q)),
    }
}

// ---------------------------------------------------------------------------
// Binary operators, pipes, lambdas, assignments
// ---------------------------------------------------------------------------

/// Postfix expressions joined by `+` and `-`, left-associative.
pub open spec fn parse_binary(t: Seq<SpecToken>, p: int) -> Option<(SpecExpr, int)>
    decreases t.len() - p, 7nat,
{
    match parse_postfix(t, p) {
        None => None,
        Some((lhs, q)) => if p < q <= t.len() {
            binary_tail(t, q, lhs)
        } else {
            Some((lhs, q))
        },
    }
}

/// Further `+`/`-` rounds on `acc`, from `q` on.
pub open spec fn binary_tail(t: Seq<SpecToken>, q: int, acc: SpecExpr) -> Option<(SpecExpr, int)>
    decreases t.len() - q, 6nat,
{
    if 0 <= q < t.len() && (t[q] is Plus || t[q] is Minus) {
        let op = if t[q] is Plus {
            BinaryOp::Add
        } else {
            BinaryOp::Sub
        };
        match parse_postfix(t, q + 1) {
            Some((rhs, r)) => if q < r <= t.len() {
                binary_tail(t, r, SpecExpr::Binary(Box::new(acc), op, Box::new(rhs)))
            } else {
                Some((SpecExpr::Binary(Box::new(acc), op, Box::new(rhs)), r))
            },
            None => Some((acc, q)),
        }
    } else {
        Some((acc, q))
    }
}

/// Binary expressions joined by `->`, left-associative.
pub open spec fn parse_pipe(t: Seq<SpecToken>, p: int) -> Option<(SpecExpr, int)>
    decreases t.len() - p, 9nat,
{
    match parse_binary(t, p) {
        None => None,
        Some((lhs, q)) => if p < q <= t.len() {
            pipe_tail(t, q, lhs)
        } else {
            Some((lhs, q))
        },
    }
}

/// Further `->` rounds on `acc`, from `q` on.
pub open spec fn pipe_tail(t: Seq<SpecToken>, q: int, acc: SpecExpr) -> Option<(SpecExpr, int)>
    decreases t.len() - q, 8nat,
{
    if 0 <= q < t.len() && t[q] is Arrow {
        match parse_binary(t, q + 1) {
            Some((rhs, r)) => if q < r <= t.len() {
                pipe_tail(t, r, SpecExpr::Pipe(Box::new(acc), Box::new(rhs)))
            } else {
                Some((SpecExpr::Pipe(Box::new(acc), Box::new(rhs)), r))
            },
            None => Some((acc, q)),
        }
    } else {
        Some((acc, q))
    }
}

/// name `=>` expression
pub open spec fn lambda_only_at(t: Seq<SpecToken>, p: int) -> Option<(SpecExpr, int)>
    decreases t.len() - p, 10nat,
{
    if 0 <= p && p + 1 < t.len() && t[p] is Ident && t[p + 1] is MapArrow {
        match parse_expr(t, p + 2) {
            Some((body, q)) => Some((SpecExpr::Lambda(t[p]->Ident_0, Box::new(body)), q)),
            None => None,
        }
    } else {
        None
    }
}

/// A lambda, else a pipe.
pub open spec fn parse_lambda(t: Seq<SpecToken>, p: int) -> Option<(SpecExpr, int)>
    decreases t.len() - p, 11nat,
{
    first_of(lambda_only_at(t, p), parse_pipe(t, p))
}

/// An expression: name `=` expression, else a lambda or pipe.
pub open spec fn parse_expr(t: Seq<SpecToken>, p: int) -> Option<(SpecExpr, int)>
    decreases t.len() - p, 12nat,
{
    let assignment = if 0 <= p && p + 1 < t.len() && t[p] is Ident && t[p + 1] is Assign {
        match parse_expr(t, p + 2) {
            Some((e, q)) => Some((SpecExpr::Assign(t[p]->Ident_0, Box::new(e)), q)),
            None => None,
        }
    } else {
        None
    };
    first_of(assignment, parse_lambda(t, p))
}

/// `+` or `-`, as an operator.
pub open spec fn add_sub_at(t: Seq<SpecToken>, p: int) -> Option<(BinaryOp, int)> {
    if 0 <= p < t.len() && t[p] is Plus {
        Some((BinaryOp::Add, p + 1))
    } else if 0 <= p < t.len() && t[p] is Minus {
        Some((BinaryOp::Sub, p + 1))
    } else {
        None
    }
}

/// The expression that the whole token sequence forms, if it forms one.
pub open spec fn parse_tokens_spec(t: Seq<SpecToken>) -> Option<SpecExpr> {
    match parse_expr(t, 0) {
        Some((e, q)) => if q == t.len() {
            Some(e)
        } else {
            None
        },
        None => None,
    }
}


// ---------------------------------------------------------------------------
// Executable parsers
// ---------------------------------------------------------------------------

/// The view of a parse result.
pub open spec fn res_view(r: Option<(Expr, usize)>) -> Option<(SpecExpr, int)> {
    match r {
        Some((e, q)) => Some((e@, q as int)),
        None => None,
    }
}

/// A parse result's position lies within the input.
pub open spec fn bounded(r: Option<(Expr, usize)>, n: nat) -> bool {
    match r {
        Some((_, q)) => q <= n,
        None => true,
    }
}

/// A postfix-operation result's position lies within the input.
pub open spec fn op_bounded(r: Option<(PostfixOp, usize)>, n: nat) -> bool {
    match r {
        Some((_, q)) => q <= n,
        None => true,
    }
}

/// The view of a postfix-operation result.
pub open spec fn op_view(r: Option<(PostfixOp, usize)>) -> Option<(SpecPostfixOp, int)> {
    match r {
        Some((o, q)) => Some((o@, q as int)),
        None => None,
    }
}

/// Parses a boolean literal at `p`.
pub fn bool_lit(t: &[Token], p: usize) -> (r: Option<(Expr, usize)>)
    requires
        p <= t.len(),
    ensures
        res_view(r) == bool_at(tokens_view(t@), p as int),
        bounded(r, t@.len()),
{
    if p < t.len() {
        match &t[p] {
            Token::Bool(b) => Some((Expr::Lit(Literal::Bool(*b)), p + 1)),
            _ => None,
        }
    } else {
        None
    }
}

/// Parses a float literal at `p`.
pub fn float_lit(t: &[Token], p: usize) -> (r: Option<(Expr, usize)>)
    requires
        p <= t.len(),
    ensures
        res_view(r) == float_at(tokens_view(t@), p as int),
        bounded(r, t@.len()),
{
    if p < t.len() {
        match &t[p] {
            Token::Float(s) => Some((Expr::Lit(Literal::Float(float_display(s.as_str()))), p + 1)),
            _ => None,
        }
    } else {
        None
    }
}

/// Why no integer literal was read at a position.
#[derive(Debug, PartialEq, Eq, Clone, Copy, Structural)]
pub enum IntError {
    /// The token there is not an integer token.
    NotAnInteger,
    /// The integer token's text is not a valid 64-bit integer.
    NotValid64,
}

/// Why `int_at` reads nothing at `p`: an integer token whose text does not fit, or no
/// integer token at all.
pub open spec fn int_error_at(t: Seq<SpecToken>, p: int) -> IntError {
    if 0 <= p < t.len() && t[p] is Int {
        IntError::NotValid64
    } else {
        IntError::NotAnInteger
    }
}

/// Parses an integer literal at `p`; its text must be a valid 64-bit integer, and where
/// it is not, the error says so.
pub fn int_lit(t: &[Token], p: usize) -> (r: Result<(Expr, usize), IntError>)
    requires
        p <= t.len(),
    ensures
        match r {
            Ok((e, q)) => int_at(tokens_view(t@), p as int) == Some((e@, q as int)) && q <= t@.len(),
            Err(err) => int_at(tokens_view(t@), p as int) is None && err == int_error_at(
                tokens_view(t@),
                p as int,
            ),
        },
{
    if p < t.len() {
        match &t[p] {
            Token::Int(s) => {
                let cs = chars_of(s.as_str());
                match parse_i64(&cs) {
                    Some(v) => Ok((Expr::Lit(Literal::Int(v)), p + 1)),
                    None => Err(IntError::NotValid64),
                }
            },
            _ => Err(IntError::NotAnInteger),
        }
    } else {
        Err(IntError::NotAnInteger)
    }
}

/// Parses a character literal at `p`.
pub fn char_lit(t: &[Token], p: usize) -> (r: Option<(Expr, usize)>)
    requires
        p <= t.len(),
    ensures
        res_view(r) == char_at(tokens_view(t@), p as int),
        bounded(r, t@.len()),
{
    if p < t.len() {
        match &t[p] {
            Token::Char(c) => Some((Expr::Lit(Literal::Char(*c)), p + 1)),
            _ => None,
        }
    } else {
        None
    }
}

/// Parses a variable identifier at `p`.
pub fn var(t: &[Token], p: usize) -> (r: Option<(Expr, usize)>)
    requires
        p <= t.len(),
    ensures
        res_view(r) == var_at(tokens_view(t@), p as int),
        bounded(r, t@.len()),
{
    if p < t.len() {
        match &t[p] {
            Token::Ident(n) => Some((Expr::Var(n.clone()), p + 1)),
            _ => None,
        }
    } else {
        None
    }
}

/// Parses a list literal at `p`, e.g. `[1, 2, 3]`.
pub fn list(t: &[Token], p: usize) -> (r: Option<(Expr, usize)>)
    requires
        p <= t.len(),
    ensures
        res_view(r) == list_at(tokens_view(t@), p as int),
        bounded(r, t@.len()),
    decreases t.len() - p, 2nat,
{
    if p < t.len() {
        match &t[p] {
            Token::LBracket => {
                let (items, r) = items(t, p + 1);
                if r < t.len() {
                    match &t[r] {
                        Token::RBracket => {
                            proof {
                                lemma_list_view(items);
                            }
                            Some((Expr::List(items), r + 1))
                        },
                        _ => None,
                    }
                } else {
                    None
                }
            },
            _ => None,
        }
    } else {
        None
    }
}

/// Parses a parenthesized expression at `p`.
pub fn group(t: &[Token], p: usize) -> (r: Option<(Expr, usize)>)
    requires
        p <= t.len(),
    ensures
        res_view(r) == group_at(tokens_view(t@), p as int),
        bounded(r, t@.len()),
    decreases t.len() - p, 2nat,
{
    if p < t.len() {
        match &t[p] {
            Token::LParen => match expr(t, p + 1) {
                Some((e, r)) => {
                    if r < t.len() {
                        match &t[r] {
                            Token::RParen => Some((e, r + 1)),
                            _ => None,
                        }
                    } else {
                        None
                    }
                },
                None => None,
            },
            _ => None,
        }
    } else {
        None
    }
}

/// Parses an atomic expression at `p`: a literal, a variable, a list, or a group.
pub fn atom(t: &[Token], p: usize) -> (r: Option<(Expr, usize)>)
    requires
        p <= t.len(),
    ensures
        res_view(r) == parse_atom(tokens_view(t@), p as int),
        bounded(r, t@.len()),
    decreases t.len() - p, 3nat,
{
    let b = bool_lit(t, p);
    if b.is_some() {
        return b;
    }
    let f = float_lit(t, p);
    if f.is_some() {
        return f;
    }
    if let Ok(i) = int_lit(t, p) {
        return Some(i);
    }
    let c = char_lit(t, p);
    if c.is_some() {
        return c;
    }
    let v = var(t, p);
    if v.is_some() {
        return v;
    }
    let l = list(t, p);
    if l.is_some() {
        return l;
    }
    group(t, p)
}

/// Parses expressions separated by commas from `p` on (a trailing comma is allowed, and
/// there may be none), returning them and the position after the last one read.
pub fn items(t: &[Token], p: usize) -> (r: (Vec<Expr>, usize))
    requires
        p <= t.len(),
    ensures
        r.1 <= t.len(),
        (exprs_view(r.0@), r.1 as int) == parse_items(tokens_view(t@), p as int),
    decreases t.len() - p, 13nat,
{
    match expr(t, p) {
        None => {
            let v: Vec<Expr> = Vec::new();
            assert(exprs_view(v@) =~= Seq::empty());
            (v, p)
        },
        Some((e, q)) => {
            let ghost ev = e@;
            if p < q {
                let (mut rest, r) = items_rest(t, q);
                let ghost rv = exprs_view(rest@);
                rest.insert(0, e);
                assert(exprs_view(rest@) =~= seq![ev] + rv);
                (rest, r)
            } else {
                let mut v: Vec<Expr> = Vec::new();
                v.push(e);
                assert(exprs_view(v@) =~= seq![ev]);
                (v, q)
            }
        },
    }
}

/// Further `,` item rounds from `q` on.
fn items_rest(t: &[Token], q: usize) -> (r: (Vec<Expr>, usize))
    requires
        q <= t.len(),
    ensures
        r.1 <= t.len(),
        (exprs_view(r.0@), r.1 as int) == items_tail(tokens_view(t@), q as int),
    decreases t.len() - q, 13nat,
{
    if q < t.len() && matches!(t[q], Token::Comma) {
        match expr(t, q + 1) {
            Some((e, r)) => {
                let ghost ev = e@;
                if q < r {
                    let (mut rest, s) = items_rest(t, r);
                    let ghost rv = exprs_view(rest@);
                    rest.insert(0, e);
                    assert(exprs_view(rest@) =~= seq![ev] + rv);
                    (rest, s)
                } else {
                    let mut v: Vec<Expr> = Vec::new();
                    v.push(e);
                    assert(exprs_view(v@) =~= seq![ev]);
                    (v, r)
                }
            },
            None => {
                let v: Vec<Expr> = Vec::new();
                assert(exprs_view(v@) =~= Seq::empty());
                (v, q + 1)
            },
        }
    } else {
        let v: Vec<Expr> = Vec::new();
        assert(exprs_view(v@) =~= Seq::empty());
        (v, q)
    }
}

/// Parses a call's argument list at `q`.
pub fn call_op(t: &[Token], q: usize) -> (r: Option<(PostfixOp, usize)>)
    requires
        q <= t.len(),
    ensures
        op_view(r) == call_op_at(tokens_view(t@), q as int),
        op_bounded(r, t@.len()),
    decreases t.len() - q, 2nat,
{
    if q < t.len() && matches!(t[q], Token::LParen) {
        let (args, r) = items(t, q + 1);
        if r < t.len() && matches!(t[r], Token::RParen) {
            Some((PostfixOp::Call(args), r + 1))
        } else {
            None
        }
    } else {
        None
    }
}

/// Parses a `.` member access at `q`: `.name`, or `.-1` (the member `-1`).
pub fn dot_member_op(t: &[Token], q: usize) -> (r: Option<(PostfixOp, usize)>)
    requires
        q <= t.len(),
    ensures
        op_view(r) == dot_member_at(tokens_view(t@), q as int),
        op_bounded(r, t@.len()),
{
    if q < t.len() && t.len() - q > 1 && matches!(t[q], Token::Dot) {
        match &t[q + 1] {
            Token::Ident(n) => return Some((PostfixOp::Member(n.clone()), q + 2)),
            Token::Minus => {
                if t.len() - q > 2 {
                    match &t[q + 2] {
                        Token::Int(n) => {
                            let mut m = String::new();
                            crate::text::push_char(&mut m, '-');
                            let cs = chars_of(n.as_str());
                            let mut k: usize = 0;
                            while k < cs.len()
                                invariant
                                    k <= cs.len(),
                                    m@ == seq!['-'] + cs@.take(k as int),
                                decreases cs.len() - k,
                            {
                                crate::text::push_char(&mut m, cs[k]);
                                assert(seq!['-'] + cs@.take(k + 1) =~= (seq!['-'] + cs@.take(
                                    k as int,
                                )).push(cs@[k as int]));
                                k += 1;
                            }
                            assert(cs@.take(cs@.len() as int) =~= cs@);
                            return Some((PostfixOp::Member(m), q + 3));
                        },
                        _ => return None,
                    }
                }
                None
            },
            _ => None,
        }
    } else {
        None
    }
}

/// Parses a `::name` member access at `q`.
pub fn colon_member_op(t: &[Token], q: usize) -> (r: Option<(PostfixOp, usize)>)
    requires
        q <= t.len(),
    ensures
        op_view(r) == colon_member_at(tokens_view(t@), q as int),
        op_bounded(r, t@.len()),
{
    if q < t.len() && t.len() - q > 1 && matches!(t[q], Token::DoubleColon) {
        match &t[q + 1] {
            Token::Ident(n) => Some((PostfixOp::Member(n.clone()), q + 2)),
            _ => None,
        }
    } else {
        None
    }
}

/// Parses one postfix operation at `q`.
pub fn postfix_op(t: &[Token], q: usize) -> (r: Option<(PostfixOp, usize)>)
    requires
        q <= t.len(),
    ensures
        op_view(r) == postfix_op_at(tokens_view(t@), q as int),
        op_bounded(r, t@.len()),
    decreases t.len() - q, 3nat,
{
    let c = call_op(t, q);
    if c.is_some() {
        return c;
    }
    let d = dot_member_op(t, q);
    if d.is_some() {
        return d;
    }
    colon_member_op(t, q)
}

fn apply_op(acc: Expr, op: PostfixOp) -> (r: Expr)
    ensures
        r@ == apply_postfix(acc@, op@),
{
    match op {
        PostfixOp::Call(args) => {
            let b = Box::new(acc);
            proof {
                lemma_call_view(b, args);
            }
            Expr::Call(b, args)
        },
        PostfixOp::Member(m) => Expr::Member(Box::new(acc), m),
    }
}

/// Parses an atom followed by any number of calls and member accesses, at `p`.
pub fn postfix(t: &[Token], p: usize) -> (r: Option<(Expr, usize)>)
    requires
        p <= t.len(),
    ensures
        res_view(r) == parse_postfix(tokens_view(t@), p as int),
        bounded(r, t@.len()),
    decreases t.len() - p, 5nat,
{
    match atom(t, p) {
        None => None,
        Some((a, q)) => if p < q {
            postfix_rest(t, q, a)
        } else {
            Some((a, q))
        },
    }
}

/// Further postfix operations on `acc`, from `q` on.
fn postfix_rest(t: &[Token], q: usize, acc: Expr) -> (r: Option<(Expr, usize)>)
    requires
        q <= t.len(),
    ensures
        res_view(r) == postfix_tail(tokens_view(t@), q as int, acc@),
        bounded(r, t@.len()),
    decreases t.len() - q, 4nat,
{
    match postfix_op(t, q) {
        Some((op, r)) => {
            let next = apply_op(acc, op);
            if q < r {
                postfix_rest(t, r, next)
            } else {
                Some((next, r))
            }
        },
        None => Some((acc, q)),
    }
}

/// Parses `+` or `-` at `p`.
pub fn add_sub_op(t: &[Token], p: usize) -> (r: Option<(BinaryOp, usize)>)
    requires
        p <= t.len(),
    ensures
        match r {
            Some((op, q)) => add_sub_at(tokens_view(t@), p as int) == Some((op, q as int)),
            None => add_sub_at(tokens_view(t@), p as int) is None,
        },
{
    if p < t.len() {
        match &t[p] {
            Token::Plus => Some((BinaryOp::Add, p + 1)),
            Token::Minus => Some((BinaryOp::Sub, p + 1)),
            _ => None,
        }
    } else {
        None
    }
}

/// Parses postfix expressions joined by `+` and `-` (left-associative), at `p`.
pub fn binary(t: &[Token], p: usize) -> (r: Option<(Expr, usize)>)
    requires
        p <= t.len(),
    ensures
        res_view(r) == parse_binary(tokens_view(t@), p as int),
        bounded(r, t@.len()),
    decreases t.len() - p, 7nat,
{
    match postfix(t, p) {
        None => None,
        Some((lhs, q)) => if p < q {
            binary_rest(t, q, lhs)
        } else {
            Some((lhs, q))
        },
    }
}

/// Further `+`/`-` rounds on `acc`, from `q` on.
fn binary_rest(t: &[Token], q: usize, acc: Expr) -> (r: Option<(Expr, usize)>)
    requires
        q <= t.len(),
    ensures
        res_view(r) == binary_tail(tokens_view(t@), q as int, acc@),
        bounded(r, t@.len()),
    decreases t.len() - q, 6nat,
{
    match add_sub_op(t, q) {
        Some((op, q1)) => match postfix(t, q1) {
            Some((rhs, r)) => {
                let next = Expr::Binary(Box::new(acc), op, Box::new(rhs));
                if q < r {
                    binary_rest(t, r, next)
                } else {
                    Some((next, r))
                }
            },
            None => Some((acc, q)),
        },
        None => Some((acc, q)),
    }
}

/// Parses `->` at `p`.
pub fn pipe_op(t: &[Token], p: usize) -> (r: Option<(Token, usize)>)
    requires
        p <= t.len(),
    ensures
        match r {
            Some((tok, q)) => p < t.len() && tokens_view(t@)[p as int] is Arrow && tok@ is Arrow
                && q == p + 1,
            None => !(p < t.len() && tokens_view(t@)[p as int] is Arrow),
        },
{
    if p < t.len() && matches!(t[p], Token::Arrow) {
        Some((Token::Arrow, p + 1))
    } else {
        None
    }
}

/// Parses binary expressions joined by `->` (left-associative), at `p`.
pub fn pipe(t: &[Token], p: usize) -> (r: Option<(Expr, usize)>)
    requires
        p <= t.len(),
    ensures
        res_view(r) == parse_pipe(tokens_view(t@), p as int),
        bounded(r, t@.len()),
    decreases t.len() - p, 9nat,
{
    match binary(t, p) {
        None => None,
        Some((lhs, q)) => if p < q {
            pipe_rest(t, q, lhs)
        } else {
            Some((lhs, q))
        },
    }
}

/// Further `->` rounds on `acc`, from `q` on.
fn pipe_rest(t: &[Token], q: usize, acc: Expr) -> (r: Option<(Expr, usize)>)
    requires
        q <= t.len(),
    ensures
        res_view(r) == pipe_tail(tokens_view(t@), q as int, acc@),
        bounded(r, t@.len()),
    decreases t.len() - q, 8nat,
{
    match pipe_op(t, q) {
        Some((_, q1)) => match binary(t, q1) {
            Some((rhs, r)) => {
                let next = Expr::Pipe(Box::new(acc), Box::new(rhs));
                if q < r {
                    pipe_rest(t, r, next)
                } else {
                    Some((next, r))
                }
            },
            None => Some((acc, q)),
        },
        None => Some((acc, q)),
    }
}

/// Parses `name => body` at `p`.
pub fn lambda_only(t: &[Token], p: usize) -> (r: Option<(Expr, usize)>)
    requires
        p <= t.len(),
    ensures
        res_view(r) == lambda_only_at(tokens_view(t@), p as int),
        bounded(r, t@.len()),
    decreases t.len() - p, 10nat,
{
    if p < t.len() && t.len() - p > 1 && matches!(t[p + 1], Token::MapArrow) {
        match &t[p] {
            Token::Ident(name) => match expr(t, p + 2) {
                Some((body, q)) => Some((Expr::Lambda(name.clone(), Box::new(body)), q)),
                None => None,
            },
            _ => None,
        }
    } else {
        None
    }
}

/// Parses a lambda at `p`, else a pipe.
pub fn lambda(t: &[Token], p: usize) -> (r: Option<(Expr, usize)>)
    requires
        p <= t.len(),
    ensures
        res_view(r) == parse_lambda(tokens_view(t@), p as int),
        bounded(r, t@.len()),
    decreases t.len() - p, 11nat,
{
    let l = lambda_only(t, p);
    if l.is_some() {
        return l;
    }
    pipe(t, p)
}

/// Parses an expression at `p`: an assignment, a lambda, or a pipe.
pub fn expr(t: &[Token], p: usize) -> (r: Option<(Expr, usize)>)
    requires
        p <= t.len(),
    ensures
        res_view(r) == parse_expr(tokens_view(t@), p as int),
        bounded(r, t@.len()),
    decreases t.len() - p, 12nat,
{
    if p < t.len() && t.len() - p > 1 && matches!(t[p + 1], Token::Assign) {
        if let Token::Ident(name) = &t[p] {
            if let Some((e, q)) = expr(t, p + 2) {
                return Some((Expr::Assign(name.clone(), Box::new(e)), q));
            }
        }
    }
    lambda(t, p)
}


// ---------------------------------------------------------------------------
// Progress: every successful parse reads at least one token
// ---------------------------------------------------------------------------

/// A parse result that starts at `p` reads at least one token and ends within the input.
pub open spec fn advances(r: Option<(SpecExpr, int)>, p: int, n: int) -> bool {
    match r {
        Some((_, q)) => p < q <= n,
        None => true,
    }
}

/// A postfix-operation result that starts at `p` reads at least one token and ends
/// within the input.
pub open spec fn op_advances(r: Option<(SpecPostfixOp, int)>, p: int, n: int) -> bool {
    match r {
        Some((_, q)) => p < q <= n,
        None => true,
    }
}

/// A result that starts at `p` never moves back and ends within the input.
pub open spec fn keeps(r: Option<(SpecExpr, int)>, p: int, n: int) -> bool {
    match r {
        Some((_, q)) => p <= q <= n,
        None => true,
    }
}

proof fn lemma_atom_advances(t: Seq<SpecToken>, p: int)
    ensures
        advances(parse_atom(t, p), p, t.len() as int),
        advances(list_at(t, p), p, t.len() as int),
        advances(group_at(t, p), p, t.len() as int),
    decreases t.len() - p, 3nat,
{
    if 0 <= p < t.len() {
        lemma_items_keep(t, p + 1);
        lemma_expr_advances(t, p + 1);
    }
}

proof fn lemma_items_keep(t: Seq<SpecToken>, p: int)
    requires
        0 <= p <= t.len(),
    ensures
        p <= parse_items(t, p).1 <= t.len(),
    decreases t.len() - p, 13nat,
{
    lemma_expr_advances(t, p);
    if let Some((e, q)) = parse_expr(t, p) {
        if p < q <= t.len() {
            lemma_items_tail_keeps(t, q);
        }
    }
}

proof fn lemma_items_tail_keeps(t: Seq<SpecToken>, q: int)
    requires
        0 <= q <= t.len(),
    ensures
        q <= items_tail(t, q).1 <= t.len(),
    decreases t.len() - q, 13nat,
{
    if 0 <= q < t.len() && t[q] is Comma {
        lemma_expr_advances(t, q + 1);
        if let Some((e, r)) = parse_expr(t, q + 1) {
            if q < r <= t.len() {
                lemma_items_tail_keeps(t, r);
            }
        }
    }
}

proof fn lemma_postfix_op_advances(t: Seq<SpecToken>, q: int)
    ensures
        op_advances(postfix_op_at(t, q), q, t.len() as int),
    decreases t.len() - q, 3nat,
{
    if 0 <= q < t.len() {
        lemma_items_keep(t, q + 1);
    }
}

proof fn lemma_postfix_tail_keeps(t: Seq<SpecToken>, q: int, acc: SpecExpr)
    requires
        0 <= q <= t.len(),
    ensures
        keeps(postfix_tail(t, q, acc), q, t.len() as int),
    decreases t.len() - q, 4nat,
{
    lemma_postfix_op_advances(t, q);
    if let Some((op, r)) = postfix_op_at(t, q) {
        lemma_postfix_tail_keeps(t, r, apply_postfix(acc, op));
    }
}

proof fn lemma_postfix_advances(t: Seq<SpecToken>, p: int)
    ensures
        advances(parse_postfix(t, p), p, t.len() as int),
    decreases t.len() - p, 5nat,
{
    lemma_atom_advances(t, p);
    if let Some((a, q)) = parse_atom(t, p) {
        lemma_postfix_tail_keeps(t, q, a);
    }
}

proof fn lemma_binary_tail_keeps(t: Seq<SpecToken>, q: int, acc: SpecExpr)
    requires
        0 <= q <= t.len(),
    ensures
        keeps(binary_tail(t, q, acc), q, t.len() as int),
    decreases t.len() - q, 6nat,
{
    if 0 <= q < t.len() && (t[q] is Plus || t[q] is Minus) {
        lemma_postfix_advances(t, q + 1);
        let op = if t[q] is Plus {
            BinaryOp::Add
        } else {
            BinaryOp::Sub
        };
        if let Some((rhs, r)) = parse_postfix(t, q + 1) {
            lemma_binary_tail_keeps(t, r, SpecExpr::Binary(Box::new(acc), op, Box::new(rhs)));
        }
    }
}

proof fn lemma_binary_advances(t: Seq<SpecToken>, p: int)
    ensures
        advances(parse_binary(t, p), p, t.len() as int),
    decreases t.len() - p, 7nat,
{
    lemma_postfix_advances(t, p);
    if let Some((lhs, q)) = parse_postfix(t, p) {
        lemma_binary_tail_keeps(t, q, lhs);
    }
}

proof fn lemma_pipe_tail_keeps(t: Seq<SpecToken>, q: int, acc: SpecExpr)
    requires
        0 <= q <= t.len(),
    ensures
        keeps(pipe_tail(t, q, acc), q, t.len() as int),
    decreases t.len() - q, 8nat,
{
    if 0 <= q < t.len() && t[q] is Arrow {
        lemma_binary_advances(t, q + 1);
        if let Some((rhs, r)) = parse_binary(t, q + 1) {
            lemma_pipe_tail_keeps(t, r, SpecExpr::Pipe(Box::new(acc), Box::new(rhs)));
        }
    }
}

proof fn lemma_pipe_advances(t: Seq<SpecToken>, p: int)
    ensures
        advances(parse_pipe(t, p), p, t.len() as int),
    decreases t.len() - p, 9nat,
{
    lemma_binary_advances(t, p);
    if let Some((lhs, q)) = parse_binary(t, p) {
        lemma_pipe_tail_keeps(t, q, lhs);
    }
}

proof fn lemma_lambda_advances(t: Seq<SpecToken>, p: int)
    ensures
        advances(parse_lambda(t, p), p, t.len() as int),
        advances(lambda_only_at(t, p), p, t.len() as int),
    decreases t.len() - p, 11nat,
{
    if 0 <= p && p + 1 < t.len() && t[p] is Ident && t[p + 1] is MapArrow {
        lemma_expr_advances(t, p + 2);
    }
    lemma_pipe_advances(t, p);
}

/// Every expression that the parser reads spans at least one token and ends within the
/// input; so the parser always moves forward, and the guards on progress in the
/// repetitions (`p < q`) always hold.
pub proof fn lemma_expr_advances(t: Seq<SpecToken>, p: int)
    ensures
        advances(parse_expr(t, p), p, t.len() as int),
    decreases t.len() - p, 12nat,
{
    if 0 <= p && p + 1 < t.len() && t[p] is Ident && t[p + 1] is Assign {
        lemma_expr_advances(t, p + 2);
    }
    lemma_lambda_advances(t, p);
}

} // verus!
