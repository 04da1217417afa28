//! A statement parser working directly on text: `name = value`, where the value is a
//! non-negative integer or a variable, with whitespace and `//` line comments allowed
//! around the parts.

use vstd::prelude::*;
use crate::lex::{digits_end, digits_from, ident_end, ident_from, skip_whitespace};
use crate::text::{
    all_digits, capped_digits_value, chars_of, digits_value, ident_start_char, is_decimal_digit,
    is_digit, is_ident_start, is_text_whitespace, string_of_range, white_space,
};

verus! {

/// The operators of the statement language.
#[derive(Debug, PartialEq, Eq, Clone, Copy, Structural)]
pub enum BinaryOp {
    Add,
}

/// Values of the statement language.
#[derive(Debug, PartialEq)]
pub enum Expr {
    Int(i32),
    Var(String),
    Binary(Box<Expr>, BinaryOp, Box<Expr>),
}

/// Statements.
#[derive(Debug, PartialEq)]
pub enum Statement {
    Assign(String, Expr),
}

/// The mathematical value of an [`Expr`].
pub enum SpecValue {
    Int(i32),
    Var(Seq<char>),
    Binary(Box<SpecValue>, BinaryOp, Box<SpecValue>),
}

pub open spec fn value_view(e: Expr) -> SpecValue
    decreases e,
{
    match e {
        Expr::Int(i) => SpecValue::Int(i),
        Expr::Var(v) => SpecValue::Var(v@),
        Expr::Binary(l, op, r) => SpecValue::Binary(
            Box::new(value_view(*l)),
            op,
            Box::new(value_view(*r)),
        ),
    }
}

impl View for Expr {
    type V = SpecValue;

    open spec fn view(&self) -> SpecValue {
        value_view(*self)
    }
}

/// Input that does not parse.
#[derive(Debug, PartialEq, Eq, Clone, Copy, Structural)]
pub struct SyntaxError;

// ---------------------------------------------------------------------------
// The grammar
// ---------------------------------------------------------------------------

/// The position of the first line break at or after `j`, or the end of the input.
pub open spec fn comment_end(s: Seq<char>, j: int) -> int
    decreases s.len() - j,
{
    if 0 <= j < s.len() && s[j] != '\n' {
        comment_end(s, j + 1)
    } else {
        j
    }
}

/// The position after any mix of whitespace and `//` comments that starts at `i`.
pub open spec fn skip(s: Seq<char>, i: int) -> int
    decreases s.len() - i, 0nat,
{
    if 0 <= i < s.len() && white_space(s[i]) {
        skip(s, i + 1)
    } else if 0 <= i && i + 1 < s.len() && s[i] == '/' && s[i + 1] == '/' {
        skip_comment(s, i + 2)
    } else {
        i
    }
}

/// Inside a comment at `j`: the rest of the line, then `skip`.
pub open spec fn skip_comment(s: Seq<char>, j: int) -> int
    decreases s.len() - j, 1nat,
{
    if 0 <= j < s.len() && s[j] != '\n' {
        skip_comment(s, j + 1)
    } else {
        skip(s, j)
    }
}

proof fn lemma_skip_comment(s: Seq<char>, j: int)
    requires
        0 <= j <= s.len(),
    ensures
        skip_comment(s, j) == skip(s, comment_end(s, j)),
    decreases s.len() - j,
{
    if j < s.len() && s[j] != '\n' {
        lemma_skip_comment(s, j + 1);
    }
}

/// The end of the integer literal at `i` (`0`, or a non-zero digit and any digits).
pub open spec fn int_end(s: Seq<char>, i: int) -> Option<int> {
    if 0 <= i < s.len() && is_digit(s[i]) && s[i] != '0' {
        Some(digits_end(s, i + 1))
    } else if 0 <= i < s.len() && s[i] == '0' {
        Some(i + 1)
    } else {
        None
    }
}

/// The end of the identifier at `i`.
pub open spec fn name_end(s: Seq<char>, i: int) -> Option<int> {
    if 0 <= i < s.len() && ident_start_char(s[i]) {
        Some(ident_end(s, i + 1))
    } else {
        None
    }
}

/// The value at `i`: an integer literal, else a variable; with the position after it.
pub open spec fn value_at(s: Seq<char>, i: int) -> Option<(SpecValue, int)> {
    match int_end(s, i) {
        Some(e) => Some((SpecValue::Int(digits_value(s.subrange(i, e)) as i32), e)),
        None => match name_end(s, i) {
            Some(e) => Some((SpecValue::Var(s.subrange(i, e)), e)),
            None => None,
        },
    }
}

/// Reading a value at `i` meets an integer literal too large for `i32`, which makes the
/// parser panic.
pub open spec fn overflows_at(s: Seq<char>, i: int) -> bool {
    match int_end(s, i) {
        Some(e) => digits_value(s.subrange(i, e)) > i32::MAX,
        None => false,
    }
}

/// Where the value of an assignment starts: after whitespace/comments, a name,
/// whitespace/comments, `=` and whitespace/comments; with the name.
pub open spec fn assign_value_start(s: Seq<char>) -> Option<(Seq<char>, int)> {
    let i0 = skip(s, 0);
    match name_end(s, i0) {
        Some(e1) => {
            let i2 = skip(s, e1);
            if 0 <= i2 < s.len() && s[i2] == '=' {
                Some((s.subrange(i0, e1), skip(s, i2 + 1)))
            } else {
                None
            }
        },
        None => None,
    }
}

/// The statement that the whole text forms, if it forms one.
pub open spec fn assign_spec(s: Seq<char>) -> Option<(Seq<char>, SpecValue)> {
    match assign_value_start(s) {
        Some((name, i3)) => match value_at(s, i3) {
            Some((v, i4)) => if skip(s, i4) == s.len() {
                Some((name, v))
            } else {
                None
            },
            None => None,
        },
        None => None,
    }
}

/// Parsing the text as an assignment meets an integer literal too large for `i32`.
pub open spec fn assign_overflows(s: Seq<char>) -> bool {
    match assign_value_start(s) {
        Some((_, i3)) => overflows_at(s, i3),
        None => false,
    }
}

/// The value that the whole text forms, if it forms one.
pub open spec fn value_spec(s: Seq<char>) -> Option<SpecValue> {
    match value_at(s, 0) {
        Some((v, e)) => if e == s.len() {
            Some(v)
        } else {
            None
        },
        None => None,
    }
}

// ---------------------------------------------------------------------------
// Executable parsers
// ---------------------------------------------------------------------------

fn comment_from(s: &[char], j: usize) -> (r: usize)
    requires
        j <= s.len(),
    ensures
        r == comment_end(s@, j as int),
        j <= r <= s.len(),
{
    let mut k = j;
    while k < s.len() && s[k] != '\n'
        invariant
            j <= k <= s.len(),
            comment_end(s@, j as int) == comment_end(s@, k as int),
        decreases s.len() - k,
    {
        k += 1;
    }
    k
}

fn skip_from(s: &[char], i: usize) -> (r: usize)
    requires
        i <= s.len(),
    ensures
        r == skip(s@, i as int),
        i <= r <= s.len(),
{
    let mut k = i;
    loop
        invariant
            i <= k <= s.len(),
            skip(s@, i as int) == skip(s@, k as int),
        ensures
            i <= k <= s.len(),
            skip(s@, i as int) == k,
        decreases s.len() - k,
    {
        if k < s.len() && is_text_whitespace(s[k]) {
            k += 1;
        } else if k < s.len() && s.len() - k > 1 && s[k] == '/' && s[k + 1] == '/' {
            proof {
                lemma_skip_comment(s@, k + 2);
            }
            k = comment_from(s, k + 2);
        } else {
            break ;
        }
    }
    k
}

fn int_span(s: &[char], i: usize) -> (r: Option<usize>)
    requires
        i <= s.len(),
    ensures
        match r {
            Some(e) => int_end(s@, i as int) == Some(e as int) && i < e <= s.len(),
            None => int_end(s@, i as int) is None,
        },
{
    if i < s.len() && is_decimal_digit(s[i]) && s[i] != '0' {
        Some(digits_from(s, i + 1))
    } else if i < s.len() && s[i] == '0' {
        Some(i + 1)
    } else {
        None
    }
}

fn name_span(s: &[char], i: usize) -> (r: Option<usize>)
    requires
        i <= s.len(),
    ensures
        match r {
            Some(e) => name_end(s@, i as int) == Some(e as int) && i < e <= s.len(),
            None => name_end(s@, i as int) is None,
        },
{
    if i < s.len() && is_ident_start(s[i]) {
        Some(ident_from(s, i + 1))
    } else {
        None
    }
}

proof fn lemma_int_digits(s: Seq<char>, i: int, e: int)
    requires
        int_end(s, i) == Some(e),
    ensures
        all_digits(s.subrange(i, e)),
        i < e <= s.len(),
    decreases e - i,
{
    if s[i] != '0' {
        lemma_digits_run(s, i + 1);
    }
}

proof fn lemma_digits_run(s: Seq<char>, i: int)
    requires
        0 <= i <= s.len(),
    ensures
        i <= digits_end(s, i) <= s.len(),
        forall|k: int| i <= k < digits_end(s, i) ==> is_digit(#[trigger] s[k]),
    decreases s.len() - i,
{
    if i < s.len() && is_digit(s[i]) {
        lemma_digits_run(s, i + 1);
    }
}

fn value_from(s: &[char], i: usize) -> (r: Option<(Expr, usize)>)
    requires
        i <= s.len(),
        !overflows_at(s@, i as int),
    ensures
        match r {
            Some((v, e)) => value_at(s@, i as int) == Some((v@, e as int)) && e <= s.len(),
            None => value_at(s@, i as int) is None,
        },
{
    match int_span(s, i) {
        Some(e) => {
            proof {
                lemma_int_digits(s@, i as int, e as int);
                assert(forall|k: int| 0 <= k < e - i ==> is_digit(#[trigger] s@.subrange(i as int, e as int)[k]));
            }
            let v = capped_digits_value(s, i, e);
            Some((Expr::Int(v as i32), e))
        },
        None => match name_span(s, i) {
            Some(e) => Some((Expr::Var(string_of_range(s, i, e)), e)),
            None => None,
        },
    }
}

/// Parses the whole text as a non-negative integer literal: `0`, or a non-zero digit
/// followed by digits.
pub fn int_literal(source: &str) -> (r: Result<Expr, SyntaxError>)
    requires
        !overflows_at(source@, 0),
    ensures
        match r {
            Ok(v) => int_end(source@, 0) == Some(source@.len() as int) && value_spec(source@)
                == Some(v@),
            Err(_) => int_end(source@, 0) != Some(source@.len() as int),
        },
{
    let s = chars_of(source);
    match int_span(&s, 0) {
        Some(e) => {
            if e == s.len() {
                match value_from(&s, 0) {
                    Some((v, _)) => Ok(v),
                    None => Err(SyntaxError),
                }
            } else {
                Err(SyntaxError)
            }
        },
        None => Err(SyntaxError),
    }
}

/// Parses the whole text as an identifier.
pub fn var(source: &str) -> (r: Result<Expr, SyntaxError>)
    ensures
        match r {
            Ok(v) => name_end(source@, 0) == Some(source@.len() as int) && v@ == SpecValue::Var(
                source@,
            ),
            Err(_) => name_end(source@, 0) != Some(source@.len() as int),
        },
{
    let s = chars_of(source);
    match name_span(&s, 0) {
        Some(e) => {
            if e == s.len() {
                let v = Expr::Var(string_of_range(&s, 0, e));
                assert(s@.subrange(0, e as int) =~= source@);
                Ok(v)
            } else {
                Err(SyntaxError)
            }
        },
        None => Err(SyntaxError),
    }
}

/// Parses the whole text as a value: an integer literal, else a variable.
pub fn expr(source: &str) -> (r: Result<Expr, SyntaxError>)
    requires
        !overflows_at(source@, 0),
    ensures
        match r {
            Ok(v) => value_spec(source@) == Some(v@),
            Err(_) => value_spec(source@) is None,
        },
{
    let s = chars_of(source);
    match value_from(&s, 0) {
        Some((v, e)) => if e == s.len() {
            Ok(v)
        } else {
            Err(SyntaxError)
        },
        None => Err(SyntaxError),
    }
}

/// Parses the whole text as `name = value`, with whitespace and `//` comments allowed
/// before and after each part.
pub fn assign(source: &str) -> (r: Result<Statement, SyntaxError>)
    requires
        !assign_overflows(source@),
    ensures
        match r {
            Ok(Statement::Assign(name, v)) => assign_spec(source@) == Some((name@, v@)),
            Err(_) => assign_spec(source@) is None,
        },
{
    let s = chars_of(source);
    let i0 = skip_from(&s, 0);
    let e1 = match name_span(&s, i0) {
        Some(e) => e,
        None => return Err(SyntaxError),
    };
    let i2 = skip_from(&s, e1);
    if !(i2 < s.len() && s[i2] == '=') {
        return Err(SyntaxError);
    }
    let i3 = skip_from(&s, i2 + 1);
    let (v, i4) = match value_from(&s, i3) {
        Some(x) => x,
        None => return Err(SyntaxError),
    };
    let i5 = skip_from(&s, i4);
    if i5 != s.len() {
        return Err(SyntaxError);
    }
    let name = string_of_range(&s, i0, e1);
    Ok(Statement::Assign(name, v))
}

} // verus!
