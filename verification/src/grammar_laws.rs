//! What the expression grammar promises of lists and calls: the items of `[e1, ..., en]`
//! and the arguments of `f(e1, ..., en)` are the expressions of their comma-separated
//! segments, in the order they stand.

use vstd::prelude::*;
use crate::ast::SpecExpr;
use crate::grammar::{
    SpecPostfixOp, call_op_at, items_tail, lambda_only_at, lemma_expr_advances, list_at, parse_atom, parse_binary,
    parse_expr, parse_items, parse_lambda, parse_pipe, parse_postfix,
};
use crate::lex::SpecToken;

verus! {

/// Where segment `i` of a list ends: where the next segment starts, less its comma, or
/// `last_end` for the last one.
pub open spec fn segment_end(starts: Seq<int>, last_end: int, i: int) -> int {
    if i + 1 < starts.len() {
        starts[i + 1] - 1
    } else {
        last_end
    }
}

/// A closing bracket (`]` or `)`) stands at `close`, right after the last segment, which
/// ends at `last_end`, or after one trailing comma there.
pub open spec fn closes_at(t: Seq<SpecToken>, last_end: int, close: int) -> bool {
    &&& 0 <= last_end <= close < t.len()
    &&& (t[close] is RBracket || t[close] is RParen)
    &&& (close == last_end || (close == last_end + 1 && t[last_end] is Comma))
}

/// `t` holds the expressions `items` in comma-separated segments: segment `i` starts at
/// `starts[i]` and is read, as one expression, as `items[i]`, ending just before the comma
/// that starts the next segment, or at `last_end` for the last one.
pub open spec fn comma_segments(
    t: Seq<SpecToken>,
    starts: Seq<int>,
    items: Seq<SpecExpr>,
    last_end: int,
) -> bool {
    &&& starts.len() == items.len()
    &&& forall|i: int|
        0 <= i < items.len() ==> #[trigger] parse_expr(t, starts[i]) == Some(
            (items[i], segment_end(starts, last_end, i)),
        )
    &&& forall|i: int|
        0 <= i < items.len() - 1 ==> 0 < #[trigger] starts[i + 1] <= t.len() && t[starts[i + 1]
            - 1] is Comma
}

proof fn lemma_items_tail_segments(
    t: Seq<SpecToken>,
    starts: Seq<int>,
    items: Seq<SpecExpr>,
    last_end: int,
    close: int,
    k: int,
)
    requires
        comma_segments(t, starts, items, last_end),
        closes_at(t, last_end, close),
        0 <= k < items.len(),
    ensures
        items_tail(t, segment_end(starts, last_end, k)) == (items.skip(k + 1), close),
    decreases items.len() - k,
{
    let n = items.len() as int;
    if k + 1 < n {
        let q = segment_end(starts, last_end, k);
        assert(0 < starts[k + 1] <= t.len() && t[starts[k + 1] - 1] is Comma);
        assert(q + 1 == starts[k + 1]);
        assert(parse_expr(t, starts[k + 1]) == Some(
            (items[k + 1], segment_end(starts, last_end, k + 1)),
        ));
        lemma_expr_advances(t, q + 1);
        lemma_items_tail_segments(t, starts, items, last_end, close, k + 1);
        assert(seq![items[k + 1]] + items.skip(k + 2) =~= items.skip(k + 1));
    } else {
        if close == last_end + 1 {
            lemma_no_expr_at_closer(t, close);
        }
        assert(items.skip(k + 1) =~= Seq::<SpecExpr>::empty());
    }
}

/// The items of a list are the expressions of its segments, in order: where `[` stands at
/// `p`, the comma-separated segments of `t` that follow it read as `items` (the first
/// starting right after `[`), and `]` stands where the last one ends (or after a trailing
/// comma there), the list read at `p` is exactly `List(items)` and ends after that `]`.
/// With no segment at all, `[]` reads as the empty list.
pub proof fn lemma_list_items_in_order(
    t: Seq<SpecToken>,
    p: int,
    starts: Seq<int>,
    items: Seq<SpecExpr>,
    last_end: int,
    close: int,
)
    requires
        0 <= p < t.len(),
        t[p] is LBracket,
        0 <= close < t.len(),
        t[close] is RBracket,
        items.len() == 0 ==> close == p + 1,
        items.len() > 0 ==> starts[0] == p + 1 && comma_segments(t, starts, items, last_end)
            && closes_at(t, last_end, close),
    ensures
        list_at(t, p) == Some((SpecExpr::List(items), close + 1)),
{
    if items.len() == 0 {
        lemma_no_expr_at_closer(t, p + 1);
        assert(parse_items(t, p + 1).0 =~= items);
    } else {
        assert(parse_expr(t, starts[0]) == Some((items[0], segment_end(starts, last_end, 0))));
        lemma_expr_advances(t, p + 1);
        lemma_items_tail_segments(t, starts, items, last_end, close, 0);
        assert(seq![items[0]] + items.skip(1) =~= items);
    }
}

/// The arguments of a call are the expressions of its segments, in order: where `(` stands
/// at `q`, the comma-separated segments of `t` that follow it read as `args` (the first
/// starting right after `(`), and `)` stands where the last one ends (or after a trailing
/// comma there), the call read at `q` passes exactly `args` and ends after that `)`.
/// With no segment at all, `()` passes no argument.
pub proof fn lemma_call_args_in_order(
    t: Seq<SpecToken>,
    q: int,
    starts: Seq<int>,
    args: Seq<SpecExpr>,
    last_end: int,
    close: int,
)
    requires
        0 <= q < t.len(),
        t[q] is LParen,
        0 <= close < t.len(),
        t[close] is RParen,
        args.len() == 0 ==> close == q + 1,
        args.len() > 0 ==> starts[0] == q + 1 && comma_segments(t, starts, args, last_end)
            && closes_at(t, last_end, close),
    ensures
        call_op_at(t, q) == Some((SpecPostfixOp::Call(args), close + 1)),
{
    if args.len() == 0 {
        lemma_no_expr_at_closer(t, q + 1);
        assert(parse_items(t, q + 1).0 =~= args);
    } else {
        assert(parse_expr(t, starts[0]) == Some((args[0], segment_end(starts, last_end, 0))));
        lemma_expr_advances(t, q + 1);
        lemma_items_tail_segments(t, starts, args, last_end, close, 0);
        assert(seq![args[0]] + args.skip(1) =~= args);
    }
}

/// No expression starts with `]` or `)`.
proof fn lemma_no_expr_at_closer(t: Seq<SpecToken>, p: int)
    requires
        0 <= p < t.len(),
        t[p] is RBracket || t[p] is RParen,
    ensures
        parse_expr(t, p) is None,
{
    assert(parse_atom(t, p) is None);
    assert(parse_postfix(t, p) is None);
    assert(parse_binary(t, p) is None);
    assert(parse_pipe(t, p) is None);
    assert(lambda_only_at(t, p) is None);
    assert(parse_lambda(t, p) is None);
}

/// The rounds of `items_tail` from `q` on, as segments: the starts of the items it reads
/// and where the last of them ends.
proof fn lemma_items_tail_sound(t: Seq<SpecToken>, q: int) -> (res: (Seq<int>, int))
    requires
        0 <= q <= t.len(),
    ensures
        ({
            let (rest, r) = items_tail(t, q);
            let (starts, last_end) = res;
            &&& rest.len() == 0 ==> (r == q || (r == q + 1 && t[q] is Comma))
            &&& rest.len() > 0 ==> {
                &&& q < t.len() && t[q] is Comma
                &&& starts.len() > 0 && starts[0] == q + 1
                &&& comma_segments(t, starts, rest, last_end)
                &&& q < last_end <= t.len()
                &&& (r == last_end || (r == last_end + 1 && 0 <= last_end < t.len()
                    && t[last_end] is Comma))
            }
        }),
    decreases t.len() - q,
{
    if 0 <= q < t.len() && t[q] is Comma {
        lemma_expr_advances(t, q + 1);
        match parse_expr(t, q + 1) {
            Some((e, r1)) => {
                let (rest2, r2) = items_tail(t, r1);
                let (starts2, last2) = lemma_items_tail_sound(t, r1);
                let rest = seq![e] + rest2;
                if rest2.len() > 0 {
                    let starts = seq![q + 1] + starts2;
                    assert(segment_end(starts, last2, 0) == r1);
                    assert forall|i: int| 0 <= i < rest.len() implies #[trigger] parse_expr(
                        t,
                        starts[i],
                    ) == Some((rest[i], segment_end(starts, last2, i))) by {
                        if i > 0 {
                            assert(starts[i] == starts2[i - 1]);
                            assert(rest[i] == rest2[i - 1]);
                            assert(segment_end(starts, last2, i) == segment_end(
                                starts2,
                                last2,
                                i - 1,
                            ));
                            assert(parse_expr(t, starts2[i - 1]) == Some(
                                (rest2[i - 1], segment_end(starts2, last2, i - 1)),
                            ));
                        }
                    }
                    assert forall|i: int| 0 <= i < rest.len() - 1 implies 0 < #[trigger] starts[i
                        + 1] <= t.len() && t[starts[i + 1] - 1] is Comma by {
                        if i > 0 {
                            assert(starts[i + 1] == starts2[i]);
                            assert(0 < starts2[(i - 1) + 1] <= t.len() && t[starts2[(i - 1) + 1]
                                - 1] is Comma);
                        }
                    }
                    (starts, last2)
                } else {
                    let starts = seq![q + 1];
                    assert(segment_end(starts, r1, 0) == r1);
                    assert(parse_expr(t, starts[0]) == Some((rest[0], segment_end(starts, r1, 0))));
                    (starts, r1)
                }
            },
            None => (Seq::empty(), q),
        }
    } else {
        (Seq::empty(), q)
    }
}

/// A list reads only what its segments give, in order: whatever list is read at `p`, its
/// items are the expressions of comma-separated segments that start right after `[`, and
/// it ends right after the `]` that follows the last of them (or follows a trailing comma
/// there); an empty list is `[]`.
pub proof fn lemma_list_items_from_segments(t: Seq<SpecToken>, p: int) -> (segments: (
    Seq<int>,
    int,
))
    requires
        list_at(t, p) is Some,
    ensures
        ({
            let (e, q) = list_at(t, p)->Some_0;
            let (starts, last_end) = segments;
            &&& e is List
            &&& e->List_0.len() == 0 ==> q == p + 2 && t[p + 1] is RBracket
            &&& e->List_0.len() > 0 ==> starts.len() > 0 && starts[0] == p + 1 && comma_segments(
                t,
                starts,
                e->List_0,
                last_end,
            ) && closes_at(t, last_end, q - 1)
        }),
{
    let (e, q) = list_at(t, p)->Some_0;
    lemma_expr_advances(t, p + 1);
    match parse_expr(t, p + 1) {
        Some((e0, q0)) => {
            let (rest, r) = items_tail(t, q0);
            let (starts2, last2) = lemma_items_tail_sound(t, q0);
            let items = seq![e0] + rest;
            assert(e->List_0 == items);
            if rest.len() > 0 {
                let starts = seq![p + 1] + starts2;
                assert forall|i: int| 0 <= i < items.len() implies #[trigger] parse_expr(
                    t,
                    starts[i],
                ) == Some((items[i], segment_end(starts, last2, i))) by {
                    if i > 0 {
                        assert(starts[i] == starts2[i - 1]);
                        assert(items[i] == rest[i - 1]);
                        assert(segment_end(starts, last2, i) == segment_end(starts2, last2, i - 1));
                        assert(parse_expr(t, starts2[i - 1]) == Some(
                            (rest[i - 1], segment_end(starts2, last2, i - 1)),
                        ));
                    } else {
                        assert(segment_end(starts, last2, 0) == q0);
                    }
                }
                assert forall|i: int| 0 <= i < items.len() - 1 implies 0 < #[trigger] starts[i
                    + 1] <= t.len() && t[starts[i + 1] - 1] is Comma by {
                    if i > 0 {
                        assert(starts[i + 1] == starts2[i]);
                        assert(0 < starts2[(i - 1) + 1] <= t.len() && t[starts2[(i - 1) + 1]
                            - 1] is Comma);
                    }
                }
                assert(comma_segments(t, starts, items, last2));
                assert(closes_at(t, last2, q - 1));
                (starts, last2)
            } else {
                let starts = seq![p + 1];
                assert(parse_expr(t, starts[0]) == Some((items[0], segment_end(starts, q0, 0))));
                assert(comma_segments(t, starts, items, q0));
                assert(closes_at(t, q0, q - 1));
                (starts, q0)
            }
        },
        None => {
            assert(e->List_0.len() == 0);
            assert(q == p + 2 && t[p + 1] is RBracket);
            (Seq::empty(), 0)
        },
    }
}

} // verus!
