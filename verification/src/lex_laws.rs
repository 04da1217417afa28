//! What the token grammar of `lex` promises of every input: the layout tokens never come
//! out of it, and a space only separates the tokens of the texts on either side of it.

use vstd::prelude::*;
use crate::lex::{SpecToken, digits_end, ident_end, lex, lex_from, skip_ws, symbol_at, token_at};
use crate::text::{all_digits, ident_continue_char, is_digit, white_space};

verus! {

// ---------------------------------------------------------------------------
// Layout tokens
// ---------------------------------------------------------------------------

/// A token that only a layout pass would make: `Indent`, `Dedent` or `Newline`.
pub open spec fn is_layout(t: SpecToken) -> bool {
    t is Indent || t is Dedent || t is Newline
}

proof fn lemma_token_not_layout(s: Seq<char>, j: int)
    ensures
        token_at(s, j) matches Some((t, _)) ==> !is_layout(t),
{
}

proof fn lemma_lex_from_no_layout(s: Seq<char>, i: int)
    ensures
        forall|k: int| 0 <= k < lex_from(s, i).0.len() ==> !is_layout(#[trigger] lex_from(s, i).0[k]),
    decreases s.len() - i,
{
    if 0 <= i <= s.len() {
        lemma_token_not_layout(s, skip_ws(s, i));
        if let Some((t, k)) = token_at(s, skip_ws(s, i)) {
            let k2 = skip_ws(s, k);
            if i < k2 <= s.len() {
                lemma_lex_from_no_layout(s, k2);
                let rest = lex_from(s, k2).0;
                assert forall|m: int| 0 <= m < lex_from(s, i).0.len() implies !is_layout(
                    #[trigger] lex_from(s, i).0[m],
                ) by {
                    if m > 0 {
                        assert(lex_from(s, i).0[m] == rest[m - 1]);
                    }
                }
            }
        }
    }
}

/// The lexer never produces `Indent`, `Dedent` or `Newline`: whatever text it reads, none
/// of its tokens is a layout token.
pub proof fn lemma_lex_no_layout(s: Seq<char>)
    ensures
        lex(s) matches Some(ts) ==> forall|k: int| 0 <= k < ts.len() ==> !is_layout(#[trigger] ts[k]),
{
    lemma_lex_from_no_layout(s, 0);
}

// ---------------------------------------------------------------------------
// Positions
// ---------------------------------------------------------------------------

proof fn lemma_skip_ws_bounds(s: Seq<char>, i: int)
    requires
        0 <= i <= s.len(),
    ensures
        i <= skip_ws(s, i) <= s.len(),
        skip_ws(s, skip_ws(s, i)) == skip_ws(s, i),
    decreases s.len() - i,
{
    if i < s.len() && white_space(s[i]) {
        lemma_skip_ws_bounds(s, i + 1);
    }
}

pub(crate) proof fn lemma_digits_end_bounds(s: Seq<char>, i: int)
    requires
        0 <= i <= s.len(),
    ensures
        i <= digits_end(s, i) <= s.len(),
    decreases s.len() - i,
{
    if i < s.len() && is_digit(s[i]) {
        lemma_digits_end_bounds(s, i + 1);
    }
}

pub(crate) proof fn lemma_ident_end_bounds(s: Seq<char>, i: int)
    requires
        0 <= i <= s.len(),
    ensures
        i <= ident_end(s, i) <= s.len(),
    decreases s.len() - i,
{
    if i < s.len() && ident_continue_char(s[i]) {
        lemma_ident_end_bounds(s, i + 1);
    }
}

/// A token read at `j` lies within the text and is not empty.
proof fn lemma_token_bounds(s: Seq<char>, j: int)
    ensures
        token_at(s, j) matches Some((_, k)) ==> 0 <= j < k <= s.len(),
{
    if 0 <= j < s.len() {
        lemma_digits_end_bounds(s, j);
        lemma_ident_end_bounds(s, j + 1);
        let e = digits_end(s, j);
        if 0 <= e + 1 <= s.len() {
            lemma_digits_end_bounds(s, e + 1);
        }
    }
}

// ---------------------------------------------------------------------------
// Reading the text after a prefix that ends in whitespace
// ---------------------------------------------------------------------------

/// A token result moved `n` characters to the right.
pub open spec fn shifted(r: Option<(SpecToken, int)>, n: int) -> Option<(SpecToken, int)> {
    match r {
        Some((t, k)) => Some((t, k + n)),
        None => None,
    }
}

proof fn lemma_skip_ws_shift(p: Seq<char>, b: Seq<char>, i: int)
    requires
        0 <= i <= b.len(),
    ensures
        skip_ws(p + b, p.len() + i) == p.len() + skip_ws(b, i),
    decreases b.len() - i,
{
    if i < b.len() && white_space(b[i]) {
        lemma_skip_ws_shift(p, b, i + 1);
    }
}

pub(crate) proof fn lemma_digits_end_shift(p: Seq<char>, b: Seq<char>, i: int)
    requires
        0 <= i <= b.len(),
    ensures
        digits_end(p + b, p.len() + i) == p.len() + digits_end(b, i),
    decreases b.len() - i,
{
    if i < b.len() && is_digit(b[i]) {
        lemma_digits_end_shift(p, b, i + 1);
    }
}

pub(crate) proof fn lemma_ident_end_shift(p: Seq<char>, b: Seq<char>, i: int)
    requires
        0 <= i <= b.len(),
    ensures
        ident_end(p + b, p.len() + i) == p.len() + ident_end(b, i),
    decreases b.len() - i,
{
    if i < b.len() && ident_continue_char(b[i]) {
        lemma_ident_end_shift(p, b, i + 1);
    }
}

proof fn lemma_token_shift(p: Seq<char>, b: Seq<char>, j: int)
    requires
        0 <= j,
    ensures
        token_at(p + b, p.len() + j) == shifted(token_at(b, j), p.len() as int),
{
    let c = p + b;
    let n = p.len() as int;
    if j < b.len() {
        assert(c[n + j] == b[j]);
        if is_digit(b[j]) {
            lemma_digits_end_shift(p, b, j);
            lemma_digits_end_bounds(b, j);
            let e = digits_end(b, j);
            if e + 1 < b.len() {
                lemma_digits_end_shift(p, b, e + 1);
                lemma_digits_end_bounds(b, e + 1);
                let f = digits_end(b, e + 1);
                assert(c.subrange(n + j, n + f) =~= b.subrange(j, f));
            }
            assert(c.subrange(n + j, n + e) =~= b.subrange(j, e));
        } else {
            lemma_ident_end_shift(p, b, j + 1);
            lemma_ident_end_bounds(b, j + 1);
            let e = ident_end(b, j + 1);
            assert(c.subrange(n + j, n + e) =~= b.subrange(j, e));
        }
    }
}

proof fn lemma_lex_from_shift(p: Seq<char>, b: Seq<char>, i: int)
    requires
        0 <= i <= b.len(),
    ensures
        lex_from(p + b, p.len() + i) == (lex_from(b, i).0, p.len() + lex_from(b, i).1),
    decreases b.len() - i,
{
    let c = p + b;
    let n = p.len() as int;
    lemma_skip_ws_shift(p, b, i);
    lemma_skip_ws_bounds(b, i);
    let j = skip_ws(b, i);
    lemma_token_shift(p, b, j);
    if let Some((t, k)) = token_at(b, j) {
        lemma_token_bounds(b, j);
        lemma_skip_ws_shift(p, b, k);
        lemma_skip_ws_bounds(b, k);
        let k2 = skip_ws(b, k);
        if i < k2 <= b.len() {
            lemma_lex_from_shift(p, b, k2);
        }
    }
}

/// Reading from the first token on gives what reading from the start gives.
proof fn lemma_lex_from_after_ws(b: Seq<char>)
    requires
        lex(b) is Some,
    ensures
        lex_from(b, skip_ws(b, 0)) == lex_from(b, 0),
{
    lemma_skip_ws_bounds(b, 0);
    let w = skip_ws(b, 0);
    lemma_token_bounds(b, w);
    if let Some((t, k)) = token_at(b, w) {
        lemma_skip_ws_bounds(b, k);
    }
}

// ---------------------------------------------------------------------------
// Reading a text that continues past a space
// ---------------------------------------------------------------------------

proof fn lemma_skip_ws_prefix(a: Seq<char>, b: Seq<char>, i: int)
    requires
        0 <= i <= a.len(),
    ensures
        skip_ws(a.push(' ') + b, i) == if skip_ws(a, i) < a.len() {
            skip_ws(a, i)
        } else {
            a.len() + 1 + skip_ws(b, 0)
        },
    decreases a.len() - i,
{
    let c = a.push(' ') + b;
    if i < a.len() {
        assert(c[i] == a[i]);
        if white_space(a[i]) {
            lemma_skip_ws_prefix(a, b, i + 1);
        }
    } else {
        assert(c[i] == ' ');
        lemma_skip_ws_shift(a.push(' '), b, 0);
    }
}

proof fn lemma_digits_end_prefix(a: Seq<char>, b: Seq<char>, i: int)
    requires
        0 <= i <= a.len(),
    ensures
        digits_end(a.push(' ') + b, i) == digits_end(a, i),
    decreases a.len() - i,
{
    let c = a.push(' ') + b;
    if i < a.len() {
        assert(c[i] == a[i]);
        if is_digit(a[i]) {
            lemma_digits_end_prefix(a, b, i + 1);
        }
    } else {
        assert(c[i] == ' ');
    }
}

proof fn lemma_ident_end_prefix(a: Seq<char>, b: Seq<char>, i: int)
    requires
        0 <= i <= a.len(),
    ensures
        ident_end(a.push(' ') + b, i) == ident_end(a, i),
    decreases a.len() - i,
{
    let c = a.push(' ') + b;
    if i < a.len() {
        assert(c[i] == a[i]);
        if ident_continue_char(a[i]) {
            lemma_ident_end_prefix(a, b, i + 1);
        }
    } else {
        assert(c[i] == ' ');
    }
}

/// A token that the text `a` has at `j` is the token there when a space and more text
/// follow `a`.
proof fn lemma_token_prefix(a: Seq<char>, b: Seq<char>, j: int)
    requires
        0 <= j < a.len(),
        token_at(a, j) is Some,
    ensures
        token_at(a.push(' ') + b, j) == token_at(a, j),
{
    let c = a.push(' ') + b;
    let n = a.len() as int;
    assert(c[j] == a[j]);
    assert(c[n] == ' ');
    if j + 1 < n {
        assert(c[j + 1] == a[j + 1]);
    }
    if j + 2 < n {
        assert(c[j + 2] == a[j + 2]);
    }
    if is_digit(a[j]) {
        lemma_digits_end_prefix(a, b, j);
        lemma_digits_end_bounds(a, j);
        let e = digits_end(a, j);
        if e < n {
            assert(c[e] == a[e]);
        }
        if e + 1 < n {
            assert(c[e + 1] == a[e + 1]);
            lemma_digits_end_prefix(a, b, e + 1);
            lemma_digits_end_bounds(a, e + 1);
            let f = digits_end(a, e + 1);
            assert(c.subrange(j, f) =~= a.subrange(j, f));
        }
        assert(c.subrange(j, e) =~= a.subrange(j, e));
    } else {
        lemma_ident_end_prefix(a, b, j + 1);
        lemma_ident_end_bounds(a, j + 1);
        let e = ident_end(a, j + 1);
        assert(c.subrange(j, e) =~= a.subrange(j, e));
    }
}

proof fn lemma_lex_from_prefix(a: Seq<char>, b: Seq<char>, i: int)
    requires
        0 <= i <= a.len(),
        lex_from(a, i).1 == a.len(),
        lex_from(a, i).0.len() > 0,
        lex(b) is Some,
    ensures
        lex_from(a.push(' ') + b, i) == (
            lex_from(a, i).0 + lex(b)->Some_0,
            (a.len() + 1 + b.len()) as int,
        ),
    decreases a.len() - i,
{
    let c = a.push(' ') + b;
    let p = a.push(' ');
    lemma_skip_ws_bounds(a, i);
    let j = skip_ws(a, i);
    lemma_token_bounds(a, j);
    let (t, k) = token_at(a, j)->Some_0;
    lemma_skip_ws_prefix(a, b, i);
    lemma_token_prefix(a, b, j);
    lemma_skip_ws_bounds(a, k);
    lemma_skip_ws_prefix(a, b, k);
    let k2 = skip_ws(a, k);
    if k2 < a.len() {
        lemma_lex_from_prefix(a, b, k2);
        assert(seq![t] + (lex_from(a, k2).0 + lex(b)->Some_0) =~= (seq![t] + lex_from(a, k2).0)
            + lex(b)->Some_0);
    } else {
        assert(lex_from(a, a.len() as int).0 =~= Seq::<SpecToken>::empty());
        assert(lex_from(a, i).0 =~= seq![t]);
        lemma_skip_ws_bounds(b, 0);
        let w = skip_ws(b, 0);
        assert(p.len() + w == a.len() + 1 + w);
        lemma_lex_from_shift(p, b, w);
        lemma_lex_from_after_ws(b);
    }
}

/// A space only separates tokens: where the texts `a` and `b` each lex, and not both to
/// nothing, `a`, a space and `b` lex to the tokens of `a` followed by those of `b`.
pub proof fn lemma_lex_space_concat(a: Seq<char>, b: Seq<char>)
    requires
        lex(a) is Some,
        lex(b) is Some,
        lex(a)->Some_0.len() > 0 || lex(b)->Some_0.len() > 0,
    ensures
        lex(a + seq![' '] + b) == Some(lex(a)->Some_0 + lex(b)->Some_0),
{
    let c = a + seq![' '] + b;
    assert(c =~= a.push(' ') + b);
    if lex(a)->Some_0.len() > 0 {
        lemma_lex_from_prefix(a, b, 0);
    } else {
        // `a` lexes to nothing only where it is empty.
        assert(a.len() == 0);
        let p = seq![' '];
        assert(c =~= p + b);
        lemma_skip_ws_bounds(b, 0);
        let w = skip_ws(b, 0);
        lemma_skip_ws_shift(p, b, 0);
        assert(skip_ws(c, 0) == skip_ws(c, 1));
        lemma_token_shift(p, b, w);
        lemma_token_bounds(b, w);
        let (t, k) = token_at(b, w)->Some_0;
        lemma_skip_ws_shift(p, b, k);
        lemma_skip_ws_bounds(b, k);
        assert(lex_from(c, 0) == lex_from(c, 1));
        lemma_lex_from_shift(p, b, 0);
        assert(lex(a)->Some_0 + lex(b)->Some_0 =~= lex(b)->Some_0);
    }
}

// ---------------------------------------------------------------------------
// Numbers with a fraction
// ---------------------------------------------------------------------------

proof fn lemma_digits_run(s: Seq<char>, a: int, b: int)
    requires
        0 <= a <= b <= s.len(),
        forall|k: int| a <= k < b ==> is_digit(#[trigger] s[k]),
        b == s.len() || !is_digit(s[b]),
    ensures
        digits_end(s, a) == b,
    decreases b - a,
{
    if a < b {
        lemma_digits_run(s, a + 1, b);
    }
}

/// A number with a fraction is one float token, however many digits it has on either side
/// of the point: where the digits `w`, a point and the digits `f` stand at `j`, followed by
/// the end of the text or by a character that is not a digit, the token read at `j` is
/// `Float(w.f)` and ends after `f`.
pub proof fn lemma_token_float(s: Seq<char>, j: int, w: Seq<char>, f: Seq<char>)
    requires
        0 <= j,
        w.len() > 0,
        f.len() > 0,
        all_digits(w),
        all_digits(f),
        j + w.len() + 1 + f.len() <= s.len(),
        s.subrange(j, j + w.len() + 1 + f.len()) == w + seq!['.'] + f,
        j + w.len() + 1 + f.len() == s.len() || !is_digit(s[j + w.len() + 1 + f.len()]),
    ensures
        token_at(s, j) == Some(
            (SpecToken::Float(w + seq!['.'] + f), j + w.len() + 1 + f.len()),
        ),
{
    let m = j + w.len();
    let end = j + w.len() + 1 + f.len();
    let u = w + seq!['.'] + f;
    assert forall|k: int| j <= k < m implies is_digit(#[trigger] s[k]) by {
        assert(s[k] == s.subrange(j, end)[k - j]);
        assert(u[k - j] == w[k - j]);
    }
    assert(s[m] == s.subrange(j, end)[m - j]);
    assert(u[m - j] == '.');
    assert forall|k: int| m + 1 <= k < end implies is_digit(#[trigger] s[k]) by {
        assert(s[k] == s.subrange(j, end)[k - j]);
        assert(u[k - j] == f[k - m - 1]);
    }
    assert(s[j] == s.subrange(j, end)[0]);
    assert(s[m + 1] == s.subrange(j, end)[m + 1 - j]);
    lemma_digits_run(s, j, m);
    lemma_digits_run(s, m + 1, end);
}

/// A text that is a number with a fraction lexes to that one float token (so `3.141`
/// lexes to `Float("3.141")`).
pub proof fn lemma_lex_float(w: Seq<char>, f: Seq<char>)
    requires
        w.len() > 0,
        f.len() > 0,
        all_digits(w),
        all_digits(f),
    ensures
        lex(w + seq!['.'] + f) == Some(seq![SpecToken::Float(w + seq!['.'] + f)]),
{
    let s = w + seq!['.'] + f;
    assert(s.subrange(0, s.len() as int) =~= s);
    lemma_token_float(s, 0, w, f);
    assert(is_digit(w[0]));
    assert(s[0] == w[0]);
    assert(skip_ws(s, 0) == 0);
    assert(skip_ws(s, s.len() as int) == s.len());
    assert(lex_from(s, s.len() as int).0 =~= Seq::<SpecToken>::empty());
    assert(lex_from(s, 0).0 =~= seq![SpecToken::Float(s)]);
}

/// A number without a fraction is one integer token: where the digits `w` stand at `j`,
/// followed by the end of the text or by a character that is neither a digit nor a point
/// with a digit after it, the token read at `j` is `Int(w)` and ends after `w`.
pub proof fn lemma_token_int(s: Seq<char>, j: int, w: Seq<char>)
    requires
        0 <= j,
        w.len() > 0,
        all_digits(w),
        j + w.len() <= s.len(),
        s.subrange(j, j + w.len()) == w,
        j + w.len() == s.len() || (!is_digit(s[j + w.len()]) && !(s[j + w.len()] == '.' && j
            + w.len() + 1 < s.len() && is_digit(s[j + w.len() + 1]))),
    ensures
        token_at(s, j) == Some((SpecToken::Int(w), j + w.len())),
{
    let end = j + w.len();
    assert forall|k: int| j <= k < end implies is_digit(#[trigger] s[k]) by {
        assert(s[k] == s.subrange(j, end)[k - j]);
    }
    assert(s[j] == s.subrange(j, end)[0]);
    lemma_digits_run(s, j, end);
}

} // verus!
