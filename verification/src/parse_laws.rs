//! What the text statement parser promises: whitespace around `=` is optional, and
//! `name = value` reads as the assignment of that value to that name.

use vstd::prelude::*;
use crate::lex::{digits_end, ident_end};
use crate::lex_laws::{
    lemma_digits_end_bounds, lemma_digits_end_shift, lemma_ident_end_bounds,
    lemma_ident_end_shift,
};
use crate::parse::{
    SpecValue, assign_spec, int_end, name_end, skip, skip_comment, value_at, value_spec,
};
use crate::text::{ident_continue_char, ident_start_char, white_space};

verus! {

/// `n` is a name as the statement parser reads one: it starts with a character that may
/// start an identifier and is no whitespace, and every further character may continue an
/// identifier.
pub open spec fn is_name(n: Seq<char>) -> bool {
    &&& n.len() > 0
    &&& ident_start_char(n[0])
    &&& !white_space(n[0])
    &&& forall|k: int| 1 <= k < n.len() ==> ident_continue_char(#[trigger] n[k])
}

/// Every character of `w` is whitespace.
pub open spec fn all_space(w: Seq<char>) -> bool {
    forall|k: int| 0 <= k < w.len() ==> white_space(#[trigger] w[k])
}

/// Every character of `w` is ASCII whitespace.
pub open spec fn all_ascii_space(w: Seq<char>) -> bool {
    forall|k: int| 0 <= k < w.len() ==> white_space(#[trigger] w[k]) && w[k] <= '\x7f'
}

/// A value result moved `n` characters to the right.
pub open spec fn value_shifted(r: Option<(SpecValue, int)>, n: int) -> Option<(SpecValue, int)> {
    match r {
        Some((v, e)) => Some((v, n + e)),
        None => None,
    }
}

proof fn lemma_skip_shift(p: Seq<char>, b: Seq<char>, i: int)
    requires
        0 <= i <= b.len(),
    ensures
        skip(p + b, p.len() + i) == p.len() + skip(b, i),
        skip_comment(p + b, p.len() + i) == p.len() + skip_comment(b, i),
    decreases b.len() - i,
{
    let s = p + b;
    let n = p.len() as int;
    if i < b.len() {
        assert(s[n + i] == b[i]);
        lemma_skip_shift(p, b, i + 1);
        if i + 1 < b.len() {
            assert(s[n + i + 1] == b[i + 1]);
            if i + 2 <= b.len() {
                lemma_skip_shift(p, b, i + 2);
            }
        }
    }
}

proof fn lemma_value_shift(p: Seq<char>, b: Seq<char>, i: int)
    requires
        0 <= i <= b.len(),
    ensures
        value_at(p + b, p.len() + i) == value_shifted(value_at(b, i), p.len() as int),
{
    let s = p + b;
    let n = p.len() as int;
    if i < b.len() {
        assert(s[n + i] == b[i]);
        lemma_digits_end_shift(p, b, i + 1);
        lemma_digits_end_bounds(b, i + 1);
        lemma_ident_end_shift(p, b, i + 1);
        lemma_ident_end_bounds(b, i + 1);
        let de = digits_end(b, i + 1);
        let ie = ident_end(b, i + 1);
        assert(s.subrange(n + i, n + de) =~= b.subrange(i, de));
        assert(s.subrange(n + i, n + i + 1) =~= b.subrange(i, i + 1));
        assert(s.subrange(n + i, n + ie) =~= b.subrange(i, ie));
    }
}

proof fn lemma_skip_space(s: Seq<char>, a: int, b: int)
    requires
        0 <= a <= b <= s.len(),
        forall|k: int| a <= k < b ==> white_space(#[trigger] s[k]),
    ensures
        skip(s, a) == skip(s, b),
    decreases b - a,
{
    if a < b {
        lemma_skip_space(s, a + 1, b);
    }
}

proof fn lemma_ident_run(s: Seq<char>, a: int, b: int)
    requires
        0 <= a <= b <= s.len(),
        forall|k: int| a <= k < b ==> ident_continue_char(#[trigger] s[k]),
        b == s.len() || !ident_continue_char(s[b]),
    ensures
        ident_end(s, a) == b,
    decreases b - a,
{
    if a < b {
        lemma_ident_run(s, a + 1, b);
    }
}

/// What an assignment of a name `n` reads from the text `v` after its `=`: a value after
/// any whitespace and comments, then only whitespace and comments to the end.
pub open spec fn value_part(n: Seq<char>, v: Seq<char>) -> Option<(Seq<char>, SpecValue)> {
    match value_at(v, skip(v, 0)) {
        Some((val, e)) => if skip(v, e) == v.len() {
            Some((n, val))
        } else {
            None
        },
        None => None,
    }
}

proof fn lemma_assign_parts(n: Seq<char>, w1: Seq<char>, w2: Seq<char>, v: Seq<char>)
    requires
        is_name(n),
        all_ascii_space(w1),
        all_space(w2),
    ensures
        assign_spec(n + w1 + seq!['='] + w2 + v) == value_part(n, v),
{
    let pre = n + w1 + seq!['='] + w2;
    let s = n + w1 + seq!['='] + w2 + v;
    assert(s =~= pre + v);
    let a = n.len() as int;
    let b = a + w1.len();
    let d = b + 1 + w2.len();
    assert(pre.len() == d);
    assert forall|k: int| 0 <= k < a implies #[trigger] s[k] == n[k] by {}
    assert forall|k: int| a <= k < b implies #[trigger] s[k] == w1[k - a] by {}
    assert(s[b] == '=');
    assert forall|k: int| b + 1 <= k < d implies #[trigger] s[k] == w2[k - b - 1] by {}
    // the name
    assert(skip(s, 0) == 0) by {
        assert(s[0] == n[0]);
    }
    assert forall|k: int| 1 <= k < a implies ident_continue_char(#[trigger] s[k]) by {
        assert(s[k] == n[k]);
    }
    if a < b {
        assert(s[a] == w1[0]);
        assert(white_space(w1[0]) && w1[0] <= '\x7f');
    }
    lemma_ident_run(s, 1, a);
    assert(name_end(s, 0) == Some(a));
    assert(s.subrange(0, a) =~= n);
    // the `=`
    assert forall|k: int| a <= k < b implies white_space(#[trigger] s[k]) by {
        assert(s[k] == w1[k - a]);
    }
    lemma_skip_space(s, a, b);
    assert(skip(s, b) == b);
    // the value
    assert forall|k: int| b + 1 <= k < d implies white_space(#[trigger] s[k]) by {
        assert(s[k] == w2[k - b - 1]);
    }
    lemma_skip_space(s, b + 1, d);
    lemma_skip_shift(pre, v, 0);
    let i3 = skip(v, 0);
    assert(0 <= i3 <= v.len()) by {
        lemma_skip_bounds(v, 0);
    }
    lemma_value_shift(pre, v, i3);
    if let Some((val, e)) = value_at(v, i3) {
        lemma_value_end(v, i3);
        lemma_skip_shift(pre, v, e);
    }
}

proof fn lemma_skip_bounds(s: Seq<char>, i: int)
    requires
        0 <= i <= s.len(),
    ensures
        i <= skip(s, i) <= s.len(),
        i <= skip_comment(s, i) <= s.len(),
    decreases s.len() - i,
{
    if i < s.len() {
        lemma_skip_bounds(s, i + 1);
        if i + 2 <= s.len() {
            lemma_skip_bounds(s, i + 2);
        }
    }
}

proof fn lemma_value_end(s: Seq<char>, i: int)
    requires
        0 <= i <= s.len(),
    ensures
        value_at(s, i) matches Some((_, e)) ==> i < e <= s.len(),
{
    if i < s.len() {
        lemma_digits_end_bounds(s, i + 1);
        lemma_ident_end_bounds(s, i + 1);
    }
}

/// Whitespace around `=` is optional: for a name `n` and any text `v` after the `=`,
/// putting whitespace between the name and `=` (ASCII whitespace there, which no name
/// can continue with) and any whitespace after `=` does not change what the statement
/// reads, so `x=5` reads as `x = 5`.
pub proof fn lemma_assign_spacing(n: Seq<char>, w1: Seq<char>, w2: Seq<char>, v: Seq<char>)
    requires
        is_name(n),
        all_ascii_space(w1),
        all_space(w2),
    ensures
        assign_spec(n + w1 + seq!['='] + w2 + v) == assign_spec(n + seq!['='] + v),
{
    lemma_assign_parts(n, w1, w2, v);
    lemma_assign_parts(n, Seq::empty(), Seq::empty(), v);
    assert(n + Seq::<char>::empty() + seq!['='] + Seq::<char>::empty() + v =~= n + seq!['='] + v);
}

/// A name, `=` and a value read as the assignment of that value to that name, with or
/// without whitespace around the `=`: where the text `v` is a whole value `e` (such as
/// `5` or `y`), `n = v` reads as `(n, e)`.
pub proof fn lemma_assign_value(n: Seq<char>, w1: Seq<char>, w2: Seq<char>, v: Seq<char>)
    requires
        is_name(n),
        all_ascii_space(w1),
        all_space(w2),
        value_spec(v) is Some,
        !white_space(v[0]),
    ensures
        assign_spec(n + w1 + seq!['='] + w2 + v) == Some((n, value_spec(v)->Some_0)),
{
    lemma_assign_parts(n, w1, w2, v);
    lemma_value_end(v, 0);
    assert(v.len() > 0);
    if v[0] == '/' {
        // a value never starts with `/`
        assert(value_at(v, 0) is None);
    }
    assert(skip(v, 0) == 0);
    assert(skip(v, v.len() as int) == v.len());
}

} // verus!
