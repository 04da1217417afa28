//! The abstract syntax tree of the expression language, and its printer.

use vstd::prelude::*;
use crate::text::{
    append_str, chars_of, float_text, int_text, is_unicode_whitespace, push_char,
    push_float_text, push_int, string_of, white_space,
};

verus! {

/// Supported literals in the language.
///
/// A float literal is held as decimal text, not as a floating-point value: the parser
/// stores the numeral in the form `Display` writes its value (`3.10` as `3.1`, `2.0` as
/// `2`), and printing writes any float text in that form.
#[derive(Debug, PartialEq, Clone)]
pub enum Literal {
    Bool(bool),
    Int(i64),
    Float(String),
    Char(char),
}

/// Supported binary operators.
#[derive(Debug, PartialEq, Eq, Clone, Copy, Structural)]
pub enum BinaryOp {
    Add,
    Sub,
}

/// Abstract syntax tree for expressions.
#[derive(Debug, PartialEq)]
pub enum Expr {
    /// `42`, `true`, ...
    Lit(Literal),
    /// `x`
    Var(String),
    /// `a + b`
    Binary(Box<Expr>, BinaryOp, Box<Expr>),
    /// `x = 5`
    Assign(String, Box<Expr>),
    /// `a -> b`
    Pipe(Box<Expr>, Box<Expr>),
    /// `x => x`
    Lambda(String, Box<Expr>),
    /// `[1, 2]`
    List(Vec<Expr>),
    /// `f(x)`
    Call(Box<Expr>, Vec<Expr>),
    /// `obj.prop`
    Member(Box<Expr>, String),
}

/// The mathematical value of a [`Literal`].
pub enum SpecLiteral {
    Bool(bool),
    Int(i64),
    Float(Seq<char>),
    Char(char),
}

/// The mathematical value of an [`Expr`]: names and texts as character sequences.
pub enum SpecExpr {
    Lit(SpecLiteral),
    Var(Seq<char>),
    Binary(Box<SpecExpr>, BinaryOp, Box<SpecExpr>),
    Assign(Seq<char>, Box<SpecExpr>),
    Pipe(Box<SpecExpr>, Box<SpecExpr>),
    Lambda(Seq<char>, Box<SpecExpr>),
    List(Seq<SpecExpr>),
    Call(Box<SpecExpr>, Seq<SpecExpr>),
    Member(Box<SpecExpr>, Seq<char>),
}

pub open spec fn literal_view(l: Literal) -> SpecLiteral {
    match l {
        Literal::Bool(b) => SpecLiteral::Bool(b),
        Literal::Int(i) => SpecLiteral::Int(i),
        Literal::Float(t) => SpecLiteral::Float(t@),
        Literal::Char(c) => SpecLiteral::Char(c),
    }
}

pub open spec fn expr_view(e: Expr) -> SpecExpr
    decreases e,
{
    match e {
        Expr::Lit(l) => SpecExpr::Lit(literal_view(l)),
        Expr::Var(v) => SpecExpr::Var(v@),
        Expr::Binary(l, op, r) => SpecExpr::Binary(
            Box::new(expr_view(*l)),
            op,
            Box::new(expr_view(*r)),
        ),
        Expr::Assign(n, b) => SpecExpr::Assign(n@, Box::new(expr_view(*b))),
        Expr::Pipe(l, r) => SpecExpr::Pipe(Box::new(expr_view(*l)), Box::new(expr_view(*r))),
        Expr::Lambda(a, b) => SpecExpr::Lambda(a@, Box::new(expr_view(*b))),
        Expr::List(items) => SpecExpr::List(
            Seq::new(
                items.len() as nat,
                |i: int|
                    if 0 <= i < items.len() {
                        expr_view(items[i])
                    } else {
                        SpecExpr::Var(Seq::empty())
                    },
            ),
        ),
        Expr::Call(f, args) => SpecExpr::Call(
            Box::new(expr_view(*f)),
            Seq::new(
                args.len() as nat,
                |i: int|
                    if 0 <= i < args.len() {
                        expr_view(args[i])
                    } else {
                        SpecExpr::Var(Seq::empty())
                    },
            ),
        ),
        Expr::Member(o, m) => SpecExpr::Member(Box::new(expr_view(*o)), m@),
    }
}

/// The views of a sequence of expressions.
pub open spec fn exprs_view(v: Seq<Expr>) -> Seq<SpecExpr> {
    Seq::new(v.len(), |i: int| expr_view(v[i]))
}

impl View for Literal {
    type V = SpecLiteral;

    open spec fn view(&self) -> SpecLiteral {
        literal_view(*self)
    }
}

impl View for Expr {
    type V = SpecExpr;

    open spec fn view(&self) -> SpecExpr {
        expr_view(*self)
    }
}

// ---------------------------------------------------------------------------
// Printing
// ---------------------------------------------------------------------------

/// How a literal is written: `true`, `42`, the float's text, `'a'`.
pub open spec fn literal_text(l: SpecLiteral) -> Seq<char> {
    match l {
        SpecLiteral::Bool(b) => if b {
            "true"@
        } else {
            "false"@
        },
        SpecLiteral::Int(i) => int_text(i as int),
        SpecLiteral::Float(t) => float_text(t),
        SpecLiteral::Char(c) => seq!['\'', c, '\''],
    }
}

/// How an operator is written.
pub open spec fn op_text(op: BinaryOp) -> Seq<char> {
    match op {
        BinaryOp::Add => seq!['+'],
        BinaryOp::Sub => seq!['-'],
    }
}

/// `n` levels of indentation, two spaces each.
pub open spec fn indent(n: nat) -> Seq<char> {
    Seq::new(2 * n, |i: int| ' ')
}

/// `s` without its leading whitespace (`str::trim_start` of std).
pub open spec fn trim_start(s: Seq<char>) -> Seq<char>
    decreases s.len(),
{
    if s.len() > 0 && white_space(s[0]) {
        trim_start(s.drop_first())
    } else {
        s
    }
}

/// The parts joined with `sep` between each two (`[String]::join` of std).
pub open spec fn join(parts: Seq<Seq<char>>, sep: Seq<char>) -> Seq<char>
    decreases parts.len(),
{
    if parts.len() == 0 {
        Seq::empty()
    } else if parts.len() == 1 {
        parts[0]
    } else {
        join(parts.drop_last(), sep) + sep + parts.last()
    }
}

/// The text that `Expr::pretty_print` produces for `e` at indentation depth `depth`.
pub open spec fn pretty(e: SpecExpr, depth: nat) -> Seq<char>
    decreases e, 0nat,
{
    match e {
        SpecExpr::Lit(l) => literal_text(l),
        SpecExpr::Var(v) => v,
        SpecExpr::Binary(l, op, r) => pretty(*l, 0) + seq![' '] + op_text(op) + seq![' '] + pretty(
            *r,
            0,
        ),
        SpecExpr::Assign(name, body) => name + " = "@ + pretty(*body, depth),
        SpecExpr::Pipe(l, r) => {
            let rhs_depth = if (*l) is Pipe {
                depth
            } else {
                depth + 1
            };
            pretty(*l, depth) + "\n  "@ + indent(depth) + "-> "@ + trim_start(pretty(*r, rhs_depth))
        },
        SpecExpr::Lambda(arg, body) => arg + " => "@ + pretty(*body, depth),
        SpecExpr::List(items) => if items.len() == 0 {
            "[]"@
        } else {
            "["@ + pretty_items(items, depth + 1, items.len()) + "]"@
        },
        SpecExpr::Call(f, args) => pretty(*f, 0) + "("@ + pretty_items(args, 0, args.len()) + ")"@,
        SpecExpr::Member(o, m) => pretty(*o, 0) + "."@ + m,
    }
}

/// The first `n` of `items`, each printed at depth `depth`, joined by ", ".
pub open spec fn pretty_items(items: Seq<SpecExpr>, depth: nat, n: nat) -> Seq<char>
    decreases items, n,
{
    if n == 0 || n > items.len() {
        Seq::empty()
    } else if n == 1 {
        pretty(items[0], depth)
    } else {
        pretty_items(items, depth, (n - 1) as nat) + ", "@ + pretty(items[n - 1], depth)
    }
}

/// The deepest indentation level that printing `e` at depth `depth` reaches.
pub open spec fn max_depth(e: SpecExpr, depth: int) -> int
    decreases e, 0nat,
{
    match e {
        SpecExpr::Lit(_) => depth,
        SpecExpr::Var(_) => depth,
        SpecExpr::Binary(l, _, r) => max(depth, max(max_depth(*l, 0), max_depth(*r, 0))),
        SpecExpr::Assign(_, b) => max_depth(*b, depth),
        SpecExpr::Lambda(_, b) => max_depth(*b, depth),
        SpecExpr::Pipe(l, r) => max(
            max_depth(*l, depth),
            max_depth(
                *r,
                if (*l) is Pipe {
                    depth
                } else {
                    depth + 1
                },
            ),
        ),
        SpecExpr::List(items) => max_items(items, depth + 1, items.len(), depth),
        SpecExpr::Call(f, args) => max(depth, max_items(args, 0, args.len(), max_depth(*f, 0))),
        SpecExpr::Member(o, _) => max(depth, max_depth(*o, 0)),
    }
}

/// The largest of `init` and the deepest levels of the first `n` items at depth `depth`.
pub open spec fn max_items(items: Seq<SpecExpr>, depth: int, n: nat, init: int) -> int
    decreases items, n,
{
    if n == 0 || n > items.len() {
        init
    } else {
        max(max_items(items, depth, (n - 1) as nat, init), max_depth(items[n - 1], depth))
    }
}

pub open spec fn max(a: int, b: int) -> int {
    if a > b {
        a
    } else {
        b
    }
}

proof fn lemma_max_items(items: Seq<SpecExpr>, depth: int, n: nat, init: int, j: int)
    requires
        n <= items.len(),
    ensures
        init <= max_items(items, depth, n, init),
        0 <= j < n ==> max_depth(items[j], depth) <= max_items(items, depth, n, init),
    decreases n,
{
    if n > 0 {
        lemma_max_items(items, depth, (n - 1) as nat, init, j);
    }
}

proof fn lemma_max_depth_ge(e: SpecExpr, depth: int)
    ensures
        depth <= max_depth(e, depth),
    decreases e,
{
    match e {
        SpecExpr::Assign(_, b) => lemma_max_depth_ge(*b, depth),
        SpecExpr::Lambda(_, b) => lemma_max_depth_ge(*b, depth),
        SpecExpr::Pipe(l, r) => lemma_max_depth_ge(*l, depth),
        SpecExpr::List(items) => lemma_max_items(items, depth + 1, items.len(), depth, 0),
        _ => {},
    }
}

pub proof fn lemma_list_view(v: Vec<Expr>)
    ensures
        expr_view(Expr::List(v)) == SpecExpr::List(exprs_view(v@)),
{
    assert(expr_view(Expr::List(v))->List_0 =~= exprs_view(v@));
}

pub proof fn lemma_call_view(f: Box<Expr>, v: Vec<Expr>)
    ensures
        expr_view(Expr::Call(f, v)) == SpecExpr::Call(Box::new(expr_view(*f)), exprs_view(v@)),
{
    assert(expr_view(Expr::Call(f, v))->Call_1 =~= exprs_view(v@));
}

/// A copy of `e`.
pub fn copy_expr(e: &Expr) -> (r: Expr)
    ensures
        r@ == e@,
    decreases e,
{
    match e {
        Expr::Lit(l) => Expr::Lit(l.clone_literal()),
        Expr::Var(v) => Expr::Var(v.clone()),
        Expr::Binary(l, op, r) => Expr::Binary(Box::new(copy_expr(l)), *op, Box::new(copy_expr(r))),
        Expr::Assign(n, b) => Expr::Assign(n.clone(), Box::new(copy_expr(b))),
        Expr::Pipe(l, r) => Expr::Pipe(Box::new(copy_expr(l)), Box::new(copy_expr(r))),
        Expr::Lambda(a, b) => Expr::Lambda(a.clone(), Box::new(copy_expr(b))),
        Expr::List(items) => {
            let c = copy_exprs(items);
            proof {
                lemma_list_view(*items);
                lemma_list_view(c);
            }
            Expr::List(c)
        },
        Expr::Call(f, args) => {
            let g = Box::new(copy_expr(f));
            let c = copy_exprs(args);
            proof {
                lemma_call_view(*f, *args);
                lemma_call_view(g, c);
            }
            Expr::Call(g, c)
        },
        Expr::Member(o, m) => Expr::Member(Box::new(copy_expr(o)), m.clone()),
    }
}

/// Copies of the expressions in `v`.
pub fn copy_exprs(v: &Vec<Expr>) -> (r: Vec<Expr>)
    ensures
        exprs_view(r@) == exprs_view(v@),
    decreases v,
{
    let mut r: Vec<Expr> = Vec::new();
    let mut i: usize = 0;
    while i < v.len()
        invariant
            i <= v.len(),
            r@.len() == i,
            forall|j: int| 0 <= j < i ==> expr_view(#[trigger] r@[j]) == expr_view(v@[j]),
        decreases v.len() - i,
    {
        let c = copy_expr(&v[i]);
        r.push(c);
        i += 1;
    }
    assert(exprs_view(r@) =~= exprs_view(v@));
    r
}

impl Clone for Expr {
    fn clone(&self) -> (r: Self)
        ensures
            r@ == self@,
    {
        copy_expr(self)
    }
}

impl Literal {
    /// A copy of the literal.
    pub fn clone_literal(&self) -> (r: Literal)
        ensures
            r@ == self@,
    {
        match self {
            Literal::Bool(b) => Literal::Bool(*b),
            Literal::Int(i) => Literal::Int(*i),
            Literal::Float(t) => Literal::Float(t.clone()),
            Literal::Char(c) => Literal::Char(*c),
        }
    }

    /// How the literal is written (its `Display`).
    pub fn to_text(&self) -> (s: String)
        ensures
            s@ == literal_text(self@),
    {
        let mut out: Vec<char> = Vec::new();
        push_literal(&mut out, self);
        string_of(&out)
    }
}

impl BinaryOp {
    /// How the operator is written (its `Display`).
    pub fn to_text(&self) -> (s: String)
        ensures
            s@ == op_text(*self),
    {
        let mut s = String::new();
        match self {
            BinaryOp::Add => push_char(&mut s, '+'),
            BinaryOp::Sub => push_char(&mut s, '-'),
        }
        assert(s@ =~= op_text(*self));
        s
    }
}

fn push_literal(out: &mut Vec<char>, l: &Literal)
    ensures
        final(out)@ == old(out)@ + literal_text(l@),
{
    match l {
        Literal::Bool(b) => {
            if *b {
                append_str(out, "true");
            } else {
                append_str(out, "false");
            }
        },
        Literal::Int(i) => push_int(out, *i),
        Literal::Float(t) => {
            let cs = chars_of(t.as_str());
            push_float_text(out, &cs);
        },
        Literal::Char(c) => {
            out.push('\'');
            out.push(*c);
            out.push('\'');
            assert(out@ =~= old(out)@ + literal_text(l@));
        },
    }
}

/// Appends `s` with its leading whitespace removed.
fn push_trimmed(out: &mut Vec<char>, s: &Vec<char>)
    ensures
        final(out)@ == old(out)@ + trim_start(s@),
{
    let mut i: usize = 0;
    assert(s@.subrange(0, s@.len() as int) =~= s@);
    while i < s.len() && is_unicode_whitespace(s[i])
        invariant
            i <= s.len(),
            trim_start(s@) == trim_start(s@.subrange(i as int, s@.len() as int)),
        decreases s.len() - i,
    {
        assert(s@.subrange(i as int, s@.len() as int).drop_first() =~= s@.subrange(
            i + 1,
            s@.len() as int,
        ));
        i += 1;
    }
    let ghost start = i;
    let ghost rest = s@.subrange(i as int, s@.len() as int);
    assert(trim_start(rest) == rest);
    while i < s.len()
        invariant
            start <= i <= s.len(),
            rest == s@.subrange(start as int, s@.len() as int),
            out@ =~= old(out)@ + s@.subrange(start as int, i as int),
        decreases s.len() - i,
    {
        out.push(s[i]);
        i += 1;
    }
}

fn render(e: &Expr, depth: usize) -> (r: Vec<char>)
    requires
        2 * max_depth(e@, depth as int) <= isize::MAX,
    ensures
        r@ == pretty(e@, depth as nat),
    decreases e,
{
    let mut out: Vec<char> = Vec::new();
    match e {
        Expr::Lit(l) => push_literal(&mut out, l),
        Expr::Var(v) => append_str(&mut out, v.as_str()),
        Expr::Binary(l, op, r) => {
            proof {
                lemma_max_depth_ge(l@, 0);
                lemma_max_depth_ge(r@, 0);
            }
            let mut a = render(l, 0);
            out.append(&mut a);
            out.push(' ');
            match op {
                BinaryOp::Add => out.push('+'),
                BinaryOp::Sub => out.push('-'),
            }
            out.push(' ');
            let mut b = render(r, 0);
            out.append(&mut b);
            assert(out@ =~= pretty(e@, depth as nat));
        },
        Expr::Assign(name, body) => {
            append_str(&mut out, name.as_str());
            append_str(&mut out, " = ");
            let mut b = render(body, depth);
            out.append(&mut b);
        },
        Expr::Pipe(l, r) => {
            let is_pipe = match &**l {
                Expr::Pipe(_, _) => true,
                _ => false,
            };
            assert(is_pipe == (l@ is Pipe));
            proof {
                lemma_max_depth_ge(r@, if is_pipe { depth as int } else { depth + 1 });
                lemma_max_depth_ge(l@, depth as int);
            }
            let rhs_depth = if is_pipe {
                depth
            } else {
                depth + 1
            };
            let mut a = render(l, depth);
            out.append(&mut a);
            append_str(&mut out, "\n  ");
            let mut k: usize = 0;
            while k < depth
                invariant
                    k <= depth,
                    out@ == pretty(l@, depth as nat) + "\n  "@ + indent(k as nat),
                decreases depth - k,
            {
                out.push(' ');
                out.push(' ');
                assert(pretty(l@, depth as nat) + "\n  "@ + indent((k + 1) as nat) =~= pretty(
                    l@,
                    depth as nat,
                ) + "\n  "@ + indent(k as nat) + seq![' ', ' ']);
                k += 1;
            }
            append_str(&mut out, "-> ");
            let b = render(r, rhs_depth);
            push_trimmed(&mut out, &b);
            assert(out@ =~= pretty(e@, depth as nat));
        },
        Expr::Lambda(arg, body) => {
            append_str(&mut out, arg.as_str());
            append_str(&mut out, " => ");
            let mut b = render(body, depth);
            out.append(&mut b);
        },
        Expr::List(items) => {
            proof {
                lemma_list_view(*items);
            }
            let ghost s = exprs_view(items@);
            if items.len() == 0 {
                append_str(&mut out, "[]");
            } else {
                append_str(&mut out, "[");
                let mut i: usize = 0;
                while i < items.len()
                    invariant
                        0 < items.len(),
                        i <= items.len(),
                        *e == Expr::List(*items),
                        s == exprs_view(items@),
                        2 * max_items(s, depth + 1, s.len(), depth as int) <= isize::MAX,
                        out@ == "["@ + pretty_items(s, (depth + 1) as nat, i as nat),
                    decreases items.len() - i,
                {
                    proof {
                        lemma_max_items(s, depth + 1, s.len(), depth as int, i as int);
                        lemma_max_depth_ge(s[i as int], depth + 1);
                        assert(decreases_to!(*items => items[i as int]));
                        assert(decreases_to!(*e => (*e)->List_0));
                        assert(decreases_to!(*e => items[i as int]));
                    }
                    if i > 0 {
                        append_str(&mut out, ", ");
                    }
                    let mut p = render(&items[i], depth + 1);
                    out.append(&mut p);
                    i += 1;
                }
                append_str(&mut out, "]");
            }
        },
        Expr::Call(f, args) => {
            proof {
                lemma_call_view(*f, *args);
            }
            let ghost s = exprs_view(args@);
            let ghost top = max_depth(f@, 0);
            proof {
                lemma_max_depth_ge(f@, 0);
                lemma_max_items(s, 0, s.len(), top, 0);
            }
            let mut a = render(f, 0);
            out.append(&mut a);
            append_str(&mut out, "(");
            let mut i: usize = 0;
            while i < args.len()
                invariant
                    i <= args.len(),
                    *e == Expr::Call(*f, *args),
                    s == exprs_view(args@),
                    2 * max_items(s, 0, s.len(), top) <= isize::MAX,
                    out@ == pretty(f@, 0) + "("@ + pretty_items(s, 0, i as nat),
                decreases args.len() - i,
            {
                proof {
                    lemma_max_items(s, 0, s.len(), top, i as int);
                    lemma_max_depth_ge(s[i as int], 0);
                    assert(decreases_to!(*args => args[i as int]));
                    assert(decreases_to!(*e => (*e)->Call_1));
                    assert(decreases_to!(*e => args[i as int]));
                }
                if i > 0 {
                    append_str(&mut out, ", ");
                }
                let mut p = render(&args[i], 0);
                out.append(&mut p);
                i += 1;
            }
            append_str(&mut out, ")");
        },
        Expr::Member(o, m) => {
            proof {
                lemma_max_depth_ge(o@, 0);
            }
            let mut a = render(o, 0);
            out.append(&mut a);
            append_str(&mut out, ".");
            append_str(&mut out, m.as_str());
        },
    }
    out
}

impl Expr {
    /// Recursively prints the AST with indentation based on depth.
    ///
    /// Every level of `depth` indents a piped stage by two more spaces; printing fails
    /// (as allocating the indentation would) only where an indentation of more than
    /// `isize::MAX` bytes would be needed.
    pub fn pretty_print(&self, depth: usize) -> (s: String)
        requires
            2 * max_depth(self@, depth as int) <= isize::MAX,
        ensures
            s@ == pretty(self@, depth as nat),
    {
        let v = render(self, depth);
        string_of(&v)
    }
}

} // verus!
