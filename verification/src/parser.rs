//! The front end's entry point: source text to an expression.

use vstd::prelude::*;
use crate::ast::{Expr, SpecExpr};
use crate::grammar::{expr, parse_expr, parse_tokens_spec};
use crate::lex::{LexError, SpecToken, Token, lex, lex_from, lexer, tokens_view};
use crate::text::{chars_of, decimal, parse_i64, push_decimal, std_parse_i64, string_of};

verus! {

/// Why the tokens do not form one expression.
#[derive(Debug, PartialEq, Eq, Clone, Copy, Structural)]
pub enum ParseReason {
    /// The token at `at` cannot continue or start the expression.
    Unexpected,
    /// The integer token at `at` is not a valid 64-bit integer.
    NotValid64,
}

/// Where and why parsing the tokens stopped short of an expression spanning all of them.
#[derive(Debug, PartialEq, Eq, Clone, Copy, Structural)]
pub struct ParseError {
    /// The first integer token that is not a valid 64-bit integer, at or after the place
    /// where the expression read from the start stopped; where there is none, that place:
    /// the token position after the longest expression read from the start, or 0 where
    /// no expression could be read.
    pub at: usize,
    /// What is wrong at `at`.
    pub reason: ParseReason,
}

/// Where the expression read from the start of `t` ends, or 0 where none is read.
pub open spec fn parse_stop(t: Seq<SpecToken>) -> int {
    match parse_expr(t, 0) {
        Some((_, q)) => q,
        None => 0,
    }
}

/// The first integer token from position `k` on whose text is not a valid 64-bit integer.
pub open spec fn first_bad_int(t: Seq<SpecToken>, k: int) -> Option<int>
    decreases t.len() - k,
{
    if !(0 <= k < t.len()) {
        None
    } else if t[k] is Int && std_parse_i64(t[k]->Int_0) is None {
        Some(k)
    } else {
        first_bad_int(t, k + 1)
    }
}

/// The error that parsing `t` as one expression reports.
pub open spec fn parse_error_spec(t: Seq<SpecToken>) -> (int, ParseReason) {
    match first_bad_int(t, parse_stop(t)) {
        Some(k) => (k, ParseReason::NotValid64),
        None => (parse_stop(t), ParseReason::Unexpected),
    }
}

/// The expression that the source text forms: its tokens, read as one expression.
pub open spec fn parse_source(s: Seq<char>) -> Option<SpecExpr> {
    match lex(s) {
        Some(t) => parse_tokens_spec(t),
        None => None,
    }
}

/// The message of a failed lexing.
pub open spec fn lexer_message(at: nat) -> Seq<char> {
    "Lexer errors: no token at character "@ + decimal(at)
}

/// The message of a failed parse.
pub open spec fn parser_message(at: nat, reason: ParseReason) -> Seq<char> {
    match reason {
        ParseReason::Unexpected => "Parser errors: unexpected token at position "@ + decimal(at),
        ParseReason::NotValid64 => "Parser errors: Not a valid 64-bit integer at position "@
            + decimal(at),
    }
}

/// Reads the whole token sequence as one expression.
pub fn parse_tokens(tokens: &[Token]) -> (r: Result<Expr, ParseError>)
    ensures
        match r {
            Ok(e) => parse_tokens_spec(tokens_view(tokens@)) == Some(e@),
            Err(err) => parse_tokens_spec(tokens_view(tokens@)) is None && (err.at as int, err.reason)
                == parse_error_spec(tokens_view(tokens@)),
        },
{
    let stop = match expr(tokens, 0) {
        Some((e, q)) => {
            if q == tokens.len() {
                return Ok(e);
            }
            q
        },
        None => 0,
    };
    let ghost tv = tokens_view(tokens@);
    let mut k = stop;
    while k < tokens.len()
        invariant
            stop <= k <= tokens.len(),
            tv == tokens_view(tokens@),
            parse_tokens_spec(tv) is None,
            stop == parse_stop(tv),
            first_bad_int(tv, stop as int) == first_bad_int(tv, k as int),
        decreases tokens.len() - k,
    {
        if let Token::Int(s) = &tokens[k] {
            let cs = chars_of(s.as_str());
            if parse_i64(&cs).is_none() {
                return Err(ParseError { at: k, reason: ParseReason::NotValid64 });
            }
        }
        k += 1;
    }
    Err(ParseError { at: stop, reason: ParseReason::Unexpected })
}

/// The main entry point for the front end: takes raw text, lexes it, parses it, and
/// returns the expression, or a message that says which stage failed and where.
pub fn parse(source: &str) -> (r: Result<Expr, String>)
    ensures
        match r {
            Ok(e) => parse_source(source@) == Some(e@),
            Err(m) => parse_source(source@) is None && match lex(source@) {
                None => m@ == lexer_message(lex_from(source@, 0).1 as nat),
                Some(t) => m@ == parser_message(
                    parse_error_spec(t).0 as nat,
                    parse_error_spec(t).1,
                ),
            },
        },
{
    match lexer(source) {
        Err(LexError { at }) => {
            let mut m = chars_of("Lexer errors: no token at character ");
            push_decimal(&mut m, at as u64);
            Err(string_of(&m))
        },
        Ok(tokens) => match parse_tokens(&tokens) {
            Ok(e) => Ok(e),
            Err(ParseError { at, reason }) => {
                let mut m = match reason {
                    ParseReason::Unexpected => chars_of("Parser errors: unexpected token at position "),
                    ParseReason::NotValid64 => chars_of(
                        "Parser errors: Not a valid 64-bit integer at position ",
                    ),
                };
                push_decimal(&mut m, at as u64);
                Err(string_of(&m))
            },
        },
    }
}

} // verus!
