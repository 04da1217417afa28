//! What the printer promises of every tree: the indentation depth only shows in the
//! arrow lines of pipes, and a chain of pipes prints one stage per line, every arrow at
//! the same indentation.

use vstd::prelude::*;
use crate::ast::{BinaryOp, SpecExpr, indent, join, pretty, pretty_items, trim_start};
use crate::text::white_space;

verus! {

/// Whether a `Pipe` node occurs anywhere in `e`.
pub open spec fn has_pipe(e: SpecExpr) -> bool
    decreases e, 0nat,
{
    match e {
        SpecExpr::Lit(_) => false,
        SpecExpr::Var(_) => false,
        SpecExpr::Binary(l, _, r) => has_pipe(*l) || has_pipe(*r),
        SpecExpr::Assign(_, b) => has_pipe(*b),
        SpecExpr::Pipe(_, _) => true,
        SpecExpr::Lambda(_, b) => has_pipe(*b),
        SpecExpr::List(items) => any_pipe(items, items.len()),
        SpecExpr::Call(f, args) => has_pipe(*f) || any_pipe(args, args.len()),
        SpecExpr::Member(o, _) => has_pipe(*o),
    }
}

/// Whether a `Pipe` node occurs in any of the first `n` of `items`.
pub open spec fn any_pipe(items: Seq<SpecExpr>, n: nat) -> bool
    decreases items, n,
{
    if n == 0 || n > items.len() {
        false
    } else {
        any_pipe(items, (n - 1) as nat) || has_pipe(items[n - 1])
    }
}

proof fn lemma_items_depth_free(items: Seq<SpecExpr>, d1: nat, d2: nat, n: nat)
    requires
        !any_pipe(items, n),
    ensures
        pretty_items(items, d1, n) == pretty_items(items, d2, n),
    decreases items, n,
{
    if n > 0 && n <= items.len() {
        lemma_items_depth_free(items, d1, d2, (n - 1) as nat);
        lemma_pretty_depth_free(items[n - 1], d1, d2);
    }
}

/// Printing does not depend on the depth where the tree has no pipe, or where it is a
/// literal, a variable, a binary operation, a call or a member access (whose parts print
/// at depth 0): the depth only shows in the arrow lines of pipes.
pub proof fn lemma_pretty_depth_free(e: SpecExpr, d1: nat, d2: nat)
    requires
        !has_pipe(e) || e is Lit || e is Var || e is Binary || e is Call || e is Member,
    ensures
        pretty(e, d1) == pretty(e, d2),
    decreases e, 1nat,
{
    match e {
        SpecExpr::Assign(_, b) => lemma_pretty_depth_free(*b, d1, d2),
        SpecExpr::Lambda(_, b) => lemma_pretty_depth_free(*b, d1, d2),
        SpecExpr::List(items) => {
            if items.len() > 0 {
                lemma_items_depth_free(items, d1 + 1, d2 + 1, items.len());
            }
        },
        _ => {},
    }
}

/// The first `n` stages joined by pipes, nested on the left: `((s0 -> s1) -> s2) -> ...`,
/// as the parser builds a chain of `->`.
pub open spec fn chain(stages: Seq<SpecExpr>, n: nat) -> SpecExpr
    decreases n,
{
    if n <= 1 {
        stages[0]
    } else {
        SpecExpr::Pipe(Box::new(chain(stages, (n - 1) as nat)), Box::new(stages[n - 1]))
    }
}

/// The arrow line of one stage of a chain printed at depth `depth`: a new line, the
/// indentation of depth `depth + 1`, `-> ` and the stage without its leading whitespace.
pub open spec fn stage_line(stage: SpecExpr, depth: nat) -> Seq<char> {
    "\n"@ + indent(depth + 1) + "-> "@ + trim_start(pretty(stage, 0))
}

/// The arrow lines of stages 1 to `n - 1`.
pub open spec fn stage_lines(stages: Seq<SpecExpr>, depth: nat, n: nat) -> Seq<char>
    decreases n,
{
    if n <= 1 {
        Seq::empty()
    } else {
        stage_lines(stages, depth, (n - 1) as nat) + stage_line(stages[n - 1], depth)
    }
}

/// A chain of pipes prints one stage per line: the first stage, then for each further
/// stage a line at the same indentation (depth + 1) that starts with `-> `. It holds of
/// every chain whose stages contain no pipe themselves.
pub proof fn lemma_pretty_pipe_chain(stages: Seq<SpecExpr>, n: nat, depth: nat)
    requires
        1 <= n <= stages.len(),
        forall|i: int| 0 <= i < n ==> !has_pipe(#[trigger] stages[i]),
    ensures
        pretty(chain(stages, n), depth) == pretty(stages[0], 0) + stage_lines(stages, depth, n),
    decreases n,
{
    if n == 1 {
        lemma_pretty_depth_free(stages[0], depth, 0);
        assert(pretty(stages[0], 0) + Seq::<char>::empty() =~= pretty(stages[0], 0));
    } else {
        let l = chain(stages, (n - 1) as nat);
        let r = stages[n - 1];
        lemma_pretty_pipe_chain(stages, (n - 1) as nat, depth);
        let rd: nat = if l is Pipe {
            depth
        } else {
            depth + 1
        };
        lemma_pretty_depth_free(r, rd, 0);
        assert("\n  "@ + indent(depth) =~= "\n"@ + indent(depth + 1)) by {
            reveal_strlit("\n  ");
            reveal_strlit("\n");
        }
        let head = pretty(stages[0], 0);
        let lines = stage_lines(stages, depth, (n - 1) as nat);
        let t = trim_start(pretty(r, 0));
        assert(pretty(chain(stages, n), depth) == (head + lines) + "\n  "@ + indent(depth) + "-> "@
            + t);
        assert((head + lines) + "\n  "@ + indent(depth) + "-> "@ + t =~= head + (lines + (
        "\n"@ + indent(depth + 1) + "-> "@ + t)));
    }
}

/// Whether `s` starts with a whitespace character.
pub open spec fn starts_with_ws(s: Seq<char>) -> bool {
    s.len() > 0 && white_space(s[0])
}

/// The arrow lines of stages 1 to `n - 1`, each stage printed as it is.
pub open spec fn plain_stage_lines(stages: Seq<SpecExpr>, depth: nat, n: nat) -> Seq<char>
    decreases n,
{
    if n <= 1 {
        Seq::empty()
    } else {
        plain_stage_lines(stages, depth, (n - 1) as nat) + "\n"@ + indent(depth + 1) + "-> "@
            + pretty(stages[n - 1], 0)
    }
}

proof fn lemma_plain_lines(stages: Seq<SpecExpr>, depth: nat, n: nat)
    requires
        n <= stages.len(),
        forall|i: int| 1 <= i < n ==> !starts_with_ws(#[trigger] pretty(stages[i], 0)),
    ensures
        stage_lines(stages, depth, n) == plain_stage_lines(stages, depth, n),
    decreases n,
{
    if n > 1 {
        lemma_plain_lines(stages, depth, (n - 1) as nat);
        let s = pretty(stages[n - 1], 0);
        assert(!starts_with_ws(s));
        assert(trim_start(s) == s);
        assert(plain_stage_lines(stages, depth, (n - 1) as nat) + stage_line(stages[n - 1], depth)
            =~= plain_stage_lines(stages, depth, (n - 1) as nat) + "\n"@ + indent(depth + 1) + "-> "@
            + s);
    }
}

/// Where no stage after the first prints with leading whitespace, a chain prints exactly
/// its stages, each as it prints alone, joined by a new line, the indentation of depth
/// `depth + 1` and `-> `.
pub proof fn lemma_pretty_pipe_chain_plain(stages: Seq<SpecExpr>, n: nat, depth: nat)
    requires
        1 <= n <= stages.len(),
        forall|i: int| 0 <= i < n ==> !has_pipe(#[trigger] stages[i]),
        forall|i: int| 1 <= i < n ==> !starts_with_ws(#[trigger] pretty(stages[i], 0)),
    ensures
        pretty(chain(stages, n), depth) == pretty(stages[0], 0) + plain_stage_lines(
            stages,
            depth,
            n,
        ),
{
    lemma_pretty_pipe_chain(stages, n, depth);
    lemma_plain_lines(stages, depth, n);
}

/// A binary operation prints its left operand, the operator between single spaces (`+`
/// for an addition, `-` for a subtraction) and its right operand, both operands as they
/// print on their own at depth 0, whatever the depth.
pub proof fn lemma_pretty_binary(l: SpecExpr, op: BinaryOp, r: SpecExpr, depth: nat)
    ensures
        pretty(SpecExpr::Binary(Box::new(l), op, Box::new(r)), depth) == pretty(l, 0) + (
        match op {
            BinaryOp::Add => " + "@,
            BinaryOp::Sub => " - "@,
        }) + pretty(r, 0),
        op is Sub ==> pretty(SpecExpr::Binary(Box::new(l), op, Box::new(r)), depth)[pretty(
            l,
            0,
        ).len() as int + 1] == '-',
        op is Add ==> pretty(SpecExpr::Binary(Box::new(l), op, Box::new(r)), depth)[pretty(
            l,
            0,
        ).len() as int + 1] == '+',
{
    reveal_strlit(" + ");
    reveal_strlit(" - ");
    let e = SpecExpr::Binary(Box::new(l), op, Box::new(r));
    match op {
        BinaryOp::Add => {
            assert(pretty(e, depth) =~= pretty(l, 0) + " + "@ + pretty(r, 0));
        },
        BinaryOp::Sub => {
            assert(pretty(e, depth) =~= pretty(l, 0) + " - "@ + pretty(r, 0));
        },
    }
}

/// The texts of `items`, each printed at depth `depth`, in order.
pub open spec fn printed(items: Seq<SpecExpr>, depth: nat) -> Seq<Seq<char>> {
    Seq::new(items.len(), |i: int| pretty(items[i], depth))
}

proof fn lemma_items_join(items: Seq<SpecExpr>, depth: nat, n: nat)
    requires
        n <= items.len(),
    ensures
        pretty_items(items, depth, n) == join(printed(items, depth).take(n as int), ", "@),
    decreases n,
{
    let parts = printed(items, depth).take(n as int);
    if n == 1 {
        assert(parts.len() == 1);
    } else if n > 1 {
        lemma_items_join(items, depth, (n - 1) as nat);
        assert(parts.drop_last() =~= printed(items, depth).take(n - 1));
        assert(parts.last() == pretty(items[n - 1], depth));
    }
}

/// A list prints its items in order, each as it prints on its own one level deeper,
/// separated by `, ` between `[` and `]`; an empty list prints `[]`.
pub proof fn lemma_pretty_list(items: Seq<SpecExpr>, depth: nat)
    ensures
        pretty(SpecExpr::List(items), depth) == if items.len() == 0 {
            "[]"@
        } else {
            "["@ + join(printed(items, depth + 1), ", "@) + "]"@
        },
{
    if items.len() > 0 {
        lemma_items_join(items, depth + 1, items.len());
        assert(printed(items, depth + 1).take(items.len() as int) =~= printed(items, depth + 1));
    }
}

/// A call prints its function, then its arguments in order, each as it prints on its own
/// at depth 0, separated by `, ` between `(` and `)`, whatever the depth.
pub proof fn lemma_pretty_call(f: SpecExpr, args: Seq<SpecExpr>, depth: nat)
    ensures
        pretty(SpecExpr::Call(Box::new(f), args), depth) == pretty(f, 0) + "("@ + join(
            printed(args, 0),
            ", "@,
        ) + ")"@,
{
    lemma_items_join(args, 0, args.len());
    assert(printed(args, 0).take(args.len() as int) =~= printed(args, 0));
}

/// A variable prints its name; a member access its object at depth 0, `.` and the member;
/// an assignment its name, ` = ` and its value; a lambda its argument, ` => ` and its body
/// (value and body at the depth of the whole).
pub proof fn lemma_pretty_named(e: SpecExpr, depth: nat)
    ensures
        e matches SpecExpr::Var(v) ==> pretty(e, depth) == v,
        e matches SpecExpr::Member(o, m) ==> pretty(e, depth) == pretty(*o, 0) + "."@ + m,
        e matches SpecExpr::Assign(n, b) ==> pretty(e, depth) == n + " = "@ + pretty(*b, depth),
        e matches SpecExpr::Lambda(a, b) ==> pretty(e, depth) == a + " => "@ + pretty(*b, depth),
{
}

} // verus!
