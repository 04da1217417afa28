//! A smaller expression grammar over tokens: assignments, integers and variables.

use vstd::prelude::*;
use crate::grammar::{IntError, int_error_at};
use crate::lex::{SpecToken, Token, tokens_view};
use crate::text::{chars_of, parse_i64, std_parse_i64};

verus! {

/// The operators of the smaller grammar.
#[derive(Debug, PartialEq, Eq, Clone, Copy, Structural)]
pub enum BinaryOp {
    Add,
}

/// Expressions of the smaller grammar.
#[derive(Debug, PartialEq)]
pub enum Expr {
    Int(i64),
    Var(String),
    Binary(Box<Expr>, BinaryOp, Box<Expr>),
    Assign(String, Box<Expr>),
}

/// The mathematical value of an [`Expr`].
pub enum SpecBasicExpr {
    Int(i64),
    Var(Seq<char>),
    Binary(Box<SpecBasicExpr>, BinaryOp, Box<SpecBasicExpr>),
    Assign(Seq<char>, Box<SpecBasicExpr>),
}

pub open spec fn basic_view(e: Expr) -> SpecBasicExpr
    decreases e,
{
    match e {
        Expr::Int(i) => SpecBasicExpr::Int(i),
        Expr::Var(v) => SpecBasicExpr::Var(v@),
        Expr::Binary(l, op, r) => SpecBasicExpr::Binary(
            Box::new(basic_view(*l)),
            op,
            Box::new(basic_view(*r)),
        ),
        Expr::Assign(n, b) => SpecBasicExpr::Assign(n@, Box::new(basic_view(*b))),
    }
}

impl View for Expr {
    type V = SpecBasicExpr;

    open spec fn view(&self) -> SpecBasicExpr {
        basic_view(*self)
    }
}

/// An integer token whose text `str::parse::<i64>` accepts.
pub open spec fn basic_int_at(t: Seq<SpecToken>, p: int) -> Option<(SpecBasicExpr, int)> {
    if 0 <= p < t.len() && t[p] is Int {
        match std_parse_i64(t[p]->Int_0) {
            Some(v) => Some((SpecBasicExpr::Int(v), p + 1)),
            None => None,
        }
    } else {
        None
    }
}

/// An identifier token, read as a variable.
pub open spec fn basic_var_at(t: Seq<SpecToken>, p: int) -> Option<(SpecBasicExpr, int)> {
    if 0 <= p < t.len() && t[p] is Ident {
        Some((SpecBasicExpr::Var(t[p]->Ident_0), p + 1))
    } else {
        None
    }
}

/// name `=` expression, else an integer, else a variable.
pub open spec fn basic_expr(t: Seq<SpecToken>, p: int) -> Option<(SpecBasicExpr, int)>
    decreases t.len() - p,
{
    if 0 <= p && p + 1 < t.len() && t[p] is Ident && t[p + 1] is Assign {
        match basic_expr(t, p + 2) {
            Some((e, q)) => Some((SpecBasicExpr::Assign(t[p]->Ident_0, Box::new(e)), q)),
            None => if basic_int_at(t, p) is Some {
                basic_int_at(t, p)
            } else {
                basic_var_at(t, p)
            },
        }
    } else if basic_int_at(t, p) is Some {
        basic_int_at(t, p)
    } else {
        basic_var_at(t, p)
    }
}

/// The view of a parse result.
pub open spec fn basic_res_view(r: Option<(Expr, usize)>) -> Option<(SpecBasicExpr, int)> {
    match r {
        Some((e, q)) => Some((e@, q as int)),
        None => None,
    }
}

/// Parses an integer token at `p`; its text must be a valid 64-bit integer, and where it
/// is not, the error says so.
pub fn int_lit(t: &[Token], p: usize) -> (r: Result<(Expr, usize), IntError>)
    requires
        p <= t.len(),
    ensures
        match r {
            Ok((e, q)) => basic_int_at(tokens_view(t@), p as int) == Some((e@, q as int)),
            Err(err) => basic_int_at(tokens_view(t@), p as int) is None && err == int_error_at(
                tokens_view(t@),
                p as int,
            ),
        },
{
    if p < t.len() {
        match &t[p] {
            Token::Int(s) => {
                let cs = chars_of(s.as_str());
                match parse_i64(&cs) {
                    Some(v) => Ok((Expr::Int(v), p + 1)),
                    None => Err(IntError::NotValid64),
                }
            },
            _ => Err(IntError::NotAnInteger),
        }
    } else {
        Err(IntError::NotAnInteger)
    }
}

/// Parses a variable at `p`.
pub fn var(t: &[Token], p: usize) -> (r: Option<(Expr, usize)>)
    requires
        p <= t.len(),
    ensures
        basic_res_view(r) == basic_var_at(tokens_view(t@), p as int),
{
    if p < t.len() {
        match &t[p] {
            Token::Ident(n) => Some((Expr::Var(n.clone()), p + 1)),
            _ => None,
        }
    } else {
        None
    }
}

/// Parses an expression of the smaller grammar at `p`.
pub fn expr(t: &[Token], p: usize) -> (r: Option<(Expr, usize)>)
    requires
        p <= t.len(),
    ensures
        basic_res_view(r) == basic_expr(tokens_view(t@), p as int),
    decreases t.len() - p,
{
    if p < t.len() && t.len() - p > 1 && matches!(t[p + 1], Token::Assign) {
        if let Token::Ident(name) = &t[p] {
            if let Some((e, q)) = expr(t, p + 2) {
                return Some((Expr::Assign(name.clone(), Box::new(e)), q));
            }
        }
    }
    if let Ok(i) = int_lit(t, p) {
        return Some(i);
    }
    var(t, p)
}

/// Reads the whole token sequence as one expression of the smaller grammar.
pub fn parse_all(t: &[Token]) -> (r: Option<Expr>)
    ensures
        match r {
            Some(e) => basic_expr(tokens_view(t@), 0) == Some((e@, t.len() as int)),
            None => !(basic_expr(tokens_view(t@), 0) matches Some((_, q)) && q == t.len()),
        },
{
    match expr(t, 0) {
        Some((e, q)) => if q == t.len() {
            Some(e)
        } else {
            None
        },
        None => None,
    }
}

/// The tokens `t` moved `n` places to the right: a parse result at `q` in `t` is at `n + q`
/// in any token sequence that has `n` tokens before `t`.
pub open spec fn basic_shifted(r: Option<(SpecBasicExpr, int)>, n: int) -> Option<(SpecBasicExpr, int)> {
    match r {
        Some((e, q)) => Some((e, n + q)),
        None => None,
    }
}

/// Parsing never looks back: what is read at position `i` of `t` is read at `|pre| + i`
/// of `pre ++ t`.
proof fn lemma_basic_shift(pre: Seq<SpecToken>, t: Seq<SpecToken>, i: int)
    requires
        0 <= i,
    ensures
        basic_expr(pre + t, pre.len() + i) == basic_shifted(basic_expr(t, i), pre.len() as int),
    decreases t.len() - i,
{
    let u = pre + t;
    let n = pre.len() as int;
    if i < t.len() {
        assert(u[n + i] == t[i]);
    }
    if i + 1 < t.len() {
        assert(u[n + i + 1] == t[i + 1]);
        if t[i] is Ident && t[i + 1] is Assign {
            lemma_basic_shift(pre, t, i + 2);
        }
    }
}

/// The right-hand side of an assignment is any expression of the grammar: where the tokens
/// `t` form the expression `e` as a whole, `n =` followed by `t` forms the assignment of
/// `e` to `n` as a whole (so `x = y` assigns a variable and `x = y = 5` nests).
pub proof fn lemma_basic_assign_any_expr(n: Seq<char>, t: Seq<SpecToken>, e: SpecBasicExpr)
    requires
        basic_expr(t, 0) == Some((e, t.len() as int)),
    ensures
        basic_expr(seq![SpecToken::Ident(n), SpecToken::Assign] + t, 0) == Some(
            (SpecBasicExpr::Assign(n, Box::new(e)), t.len() + 2int),
        ),
{
    let pre = seq![SpecToken::Ident(n), SpecToken::Assign];
    lemma_basic_shift(pre, t, 0);
    let u = pre + t;
    assert(u[0] == SpecToken::Ident(n));
    assert(u[1] == SpecToken::Assign);
    assert(t.len() > 0);
}

/// A single integer token whose text is a valid 64-bit integer reads as that integer, and
/// a single identifier token as that variable.
pub proof fn lemma_basic_single_token(tok: SpecToken)
    ensures
        tok matches SpecToken::Int(s) ==> basic_expr(seq![tok], 0) == match std_parse_i64(s) {
            Some(v) => Some((SpecBasicExpr::Int(v), 1int)),
            None => None,
        },
        tok matches SpecToken::Ident(n) ==> basic_expr(seq![tok], 0) == Some(
            (SpecBasicExpr::Var(n), 1int),
        ),
{
}

} // verus!
