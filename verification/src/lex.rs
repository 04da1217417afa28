//! The lexer: source text to tokens.

use vstd::prelude::*;
use crate::text::{
    chars_of, ident_continue_char, ident_start_char, is_decimal_digit, is_digit, is_ident_continue,
    is_ident_start, is_text_whitespace, string_of_range, white_space,
};

verus! {

/// The tokens of the language.
#[derive(Clone, Debug, PartialEq)]
pub enum Token {
    /// `Void`
    Void,
    /// `true` or `false`
    Bool(bool),
    /// An identifier
    Ident(String),
    /// `42`
    Int(String),
    /// `3.14`
    Float(String),
    /// `'a'`
    Char(char),
    /// Layout shifted right (never produced by the lexer)
    Indent,
    /// Layout shifted left (never produced by the lexer)
    Dedent,
    /// `=`
    Assign,
    /// `->`
    Arrow,
    /// `=>`
    MapArrow,
    /// `+`
    Plus,
    /// `-`
    Minus,
    /// `:`
    Colon,
    /// `::`
    DoubleColon,
    /// `,`
    Comma,
    /// `.`
    Dot,
    /// `(`
    LParen,
    /// `)`
    RParen,
    /// `[`
    LBracket,
    /// `]`
    RBracket,
    /// An explicit newline (never produced by the lexer)
    Newline,
}

/// The mathematical value of a [`Token`].
pub enum SpecToken {
    Void,
    Bool(bool),
    Ident(Seq<char>),
    Int(Seq<char>),
    Float(Seq<char>),
    Char(char),
    Indent,
    Dedent,
    Assign,
    Arrow,
    MapArrow,
    Plus,
    Minus,
    Colon,
    DoubleColon,
    Comma,
    Dot,
    LParen,
    RParen,
    LBracket,
    RBracket,
    Newline,
}

impl View for Token {
    type V = SpecToken;

    open spec fn view(&self) -> SpecToken {
        match self {
            Token::Void => SpecToken::Void,
            Token::Bool(b) => SpecToken::Bool(*b),
            Token::Ident(s) => SpecToken::Ident(s@),
            Token::Int(s) => SpecToken::Int(s@),
            Token::Float(s) => SpecToken::Float(s@),
            Token::Char(c) => SpecToken::Char(*c),
            Token::Indent => SpecToken::Indent,
            Token::Dedent => SpecToken::Dedent,
            Token::Assign => SpecToken::Assign,
            Token::Arrow => SpecToken::Arrow,
            Token::MapArrow => SpecToken::MapArrow,
            Token::Plus => SpecToken::Plus,
            Token::Minus => SpecToken::Minus,
            Token::Colon => SpecToken::Colon,
            Token::DoubleColon => SpecToken::DoubleColon,
            Token::Comma => SpecToken::Comma,
            Token::Dot => SpecToken::Dot,
            Token::LParen => SpecToken::LParen,
            Token::RParen => SpecToken::RParen,
            Token::LBracket => SpecToken::LBracket,
            Token::RBracket => SpecToken::RBracket,
            Token::Newline => SpecToken::Newline,
        }
    }
}

/// The views of a sequence of tokens.
pub open spec fn tokens_view(ts: Seq<Token>) -> Seq<SpecToken> {
    Seq::new(ts.len(), |i: int| ts[i]@)
}

/// Where lexing stopped short of the end of the input.
#[derive(Debug, PartialEq, Eq, Clone, Copy, Structural)]
pub struct LexError {
    /// The character position at which no further token could be read.
    pub at: usize,
}

// ---------------------------------------------------------------------------
// The token grammar
// ---------------------------------------------------------------------------

/// The position after the whitespace that starts at `i` (chumsky's `padded`).
pub open spec fn skip_ws(s: Seq<char>, i: int) -> int
    decreases s.len() - i,
{
    if 0 <= i < s.len() && white_space(s[i]) {
        skip_ws(s, i + 1)
    } else {
        i
    }
}

/// The position after the run of ASCII digits that starts at `i`.
pub open spec fn digits_end(s: Seq<char>, i: int) -> int
    decreases s.len() - i,
{
    if 0 <= i < s.len() && is_digit(s[i]) {
        digits_end(s, i + 1)
    } else {
        i
    }
}

/// The position after the run of identifier characters that starts at `i`.
pub open spec fn ident_end(s: Seq<char>, i: int) -> int
    decreases s.len() - i,
{
    if 0 <= i < s.len() && ident_continue_char(s[i]) {
        ident_end(s, i + 1)
    } else {
        i
    }
}

/// The token that an identifier-shaped word stands for: `Void`, `true` and `false`
/// are keywords.
pub open spec fn word_token(w: Seq<char>) -> SpecToken {
    if w == "Void"@ {
        SpecToken::Void
    } else if w == "true"@ {
        SpecToken::Bool(true)
    } else if w == "false"@ {
        SpecToken::Bool(false)
    } else {
        SpecToken::Ident(w)
    }
}

/// The symbol at `j`, longest first where two share a first character.
pub open spec fn symbol_at(s: Seq<char>, j: int) -> Option<(SpecToken, int)> {
    let c = s[j];
    let next = if j + 1 < s.len() {
        s[j + 1]
    } else {
        ' '
    };
    if c == ':' {
        if j + 1 < s.len() && next == ':' {
            Some((SpecToken::DoubleColon, j + 2))
        } else {
            Some((SpecToken::Colon, j + 1))
        }
    } else if c == '=' {
        if j + 1 < s.len() && next == '>' {
            Some((SpecToken::MapArrow, j + 2))
        } else {
            Some((SpecToken::Assign, j + 1))
        }
    } else if c == '-' {
        if j + 1 < s.len() && next == '>' {
            Some((SpecToken::Arrow, j + 2))
        } else {
            Some((SpecToken::Minus, j + 1))
        }
    } else if c == '+' {
        Some((SpecToken::Plus, j + 1))
    } else if c == ',' {
        Some((SpecToken::Comma, j + 1))
    } else if c == '.' {
        Some((SpecToken::Dot, j + 1))
    } else if c == '(' {
        Some((SpecToken::LParen, j + 1))
    } else if c == ')' {
        Some((SpecToken::RParen, j + 1))
    } else if c == '[' {
        Some((SpecToken::LBracket, j + 1))
    } else if c == ']' {
        Some((SpecToken::RBracket, j + 1))
    } else {
        None
    }
}

/// The token that starts at position `j` and the position after it, trying in order a
/// character literal, a number, an identifier or keyword, and a symbol.
pub open spec fn token_at(s: Seq<char>, j: int) -> Option<(SpecToken, int)> {
    if !(0 <= j < s.len()) {
        None
    } else if s[j] == '\'' && j + 2 < s.len() && s[j + 1] != '\'' && s[j + 2] == '\'' {
        Some((SpecToken::Char(s[j + 1]), j + 3))
    } else if is_digit(s[j]) {
        let e = digits_end(s, j);
        if e + 1 < s.len() && s[e] == '.' && is_digit(s[e + 1]) {
            let f = digits_end(s, e + 1);
            Some((SpecToken::Float(s.subrange(j, f)), f))
        } else {
            Some((SpecToken::Int(s.subrange(j, e)), e))
        }
    } else if ident_start_char(s[j]) {
        let e = ident_end(s, j + 1);
        Some((word_token(s.subrange(j, e)), e))
    } else {
        symbol_at(s, j)
    }
}

/// Tokens read from position `i` on, each with the whitespace around it, and the position
/// where reading stopped: the position after the last token's trailing whitespace, or `i`
/// itself where no token follows.
pub open spec fn lex_from(s: Seq<char>, i: int) -> (Seq<SpecToken>, int)
    decreases s.len() - i,
{
    if !(0 <= i <= s.len()) {
        (Seq::empty(), i)
    } else {
        match token_at(s, skip_ws(s, i)) {
            Some((t, k)) => {
                let k2 = skip_ws(s, k);
                if i < k2 <= s.len() {
                    let (rest, e) = lex_from(s, k2);
                    (seq![t] + rest, e)
                } else {
                    (seq![t], k2)
                }
            },
            None => (Seq::empty(), i),
        }
    }
}

/// The tokens of `s`, where reading them consumes the whole input.
pub open spec fn lex(s: Seq<char>) -> Option<Seq<SpecToken>> {
    let (ts, e) = lex_from(s, 0);
    if e == s.len() {
        Some(ts)
    } else {
        None
    }
}

// ---------------------------------------------------------------------------
// Executable lexer
// ---------------------------------------------------------------------------

pub fn skip_whitespace(s: &[char], i: usize) -> (r: usize)
    requires
        i <= s.len(),
    ensures
        r == skip_ws(s@, i as int),
        i <= r <= s.len(),
{
    let mut k = i;
    while k < s.len() && is_text_whitespace(s[k])
        invariant
            i <= k <= s.len(),
            skip_ws(s@, i as int) == skip_ws(s@, k as int),
        decreases s.len() - k,
    {
        k += 1;
    }
    k
}

pub fn digits_from(s: &[char], i: usize) -> (r: usize)
    requires
        i <= s.len(),
    ensures
        r == digits_end(s@, i as int),
        i <= r <= s.len(),
{
    let mut k = i;
    while k < s.len() && is_decimal_digit(s[k])
        invariant
            i <= k <= s.len(),
            digits_end(s@, i as int) == digits_end(s@, k as int),
        decreases s.len() - k,
    {
        k += 1;
    }
    k
}

pub fn ident_from(s: &[char], i: usize) -> (r: usize)
    requires
        i <= s.len(),
    ensures
        r == ident_end(s@, i as int),
        i <= r <= s.len(),
{
    let mut k = i;
    while k < s.len() && is_ident_continue(s[k])
        invariant
            i <= k <= s.len(),
            ident_end(s@, i as int) == ident_end(s@, k as int),
        decreases s.len() - k,
    {
        k += 1;
    }
    k
}

/// Whether `s[from..to]` spells `w`.
fn spells(s: &[char], from: usize, to: usize, w: &str) -> (r: bool)
    requires
        from <= to <= s.len(),
    ensures
        r == (s@.subrange(from as int, to as int) == w@),
{
    let wc = chars_of(w);
    if to - from != wc.len() {
        return false;
    }
    let mut k: usize = 0;
    while k < wc.len()
        invariant
            k <= wc.len() == to - from,
            from <= to <= s.len(),
            wc@ == w@,
            forall|m: int| 0 <= m < k ==> s@[from + m] == wc@[m],
        decreases wc.len() - k,
    {
        if s[from + k] != wc[k] {
            assert(s@.subrange(from as int, to as int)[k as int] != w@[k as int]);
            return false;
        }
        k += 1;
    }
    assert(s@.subrange(from as int, to as int) =~= w@);
    true
}

fn symbol(s: &[char], j: usize) -> (r: Option<(Token, usize)>)
    requires
        j < s.len(),
    ensures
        match r {
            Some((t, k)) => symbol_at(s@, j as int) == Some((t@, k as int)),
            None => symbol_at(s@, j as int) is None,
        },
{
    let c = s[j];
    let has_next = j + 1 < s.len();
    if c == ':' {
        if has_next && s[j + 1] == ':' {
            Some((Token::DoubleColon, j + 2))
        } else {
            Some((Token::Colon, j + 1))
        }
    } else if c == '=' {
        if has_next && s[j + 1] == '>' {
            Some((Token::MapArrow, j + 2))
        } else {
            Some((Token::Assign, j + 1))
        }
    } else if c == '-' {
        if has_next && s[j + 1] == '>' {
            Some((Token::Arrow, j + 2))
        } else {
            Some((Token::Minus, j + 1))
        }
    } else if c == '+' {
        Some((Token::Plus, j + 1))
    } else if c == ',' {
        Some((Token::Comma, j + 1))
    } else if c == '.' {
        Some((Token::Dot, j + 1))
    } else if c == '(' {
        Some((Token::LParen, j + 1))
    } else if c == ')' {
        Some((Token::RParen, j + 1))
    } else if c == '[' {
        Some((Token::LBracket, j + 1))
    } else if c == ']' {
        Some((Token::RBracket, j + 1))
    } else {
        None
    }
}

/// The token that starts at character `j`, and the position after it.
pub fn next_token(s: &[char], j: usize) -> (r: Option<(Token, usize)>)
    requires
        j <= s.len(),
    ensures
        match r {
            Some((t, k)) => token_at(s@, j as int) == Some((t@, k as int)) && j < k <= s.len(),
            None => token_at(s@, j as int) is None,
        },
{
    let n = s.len();
    if j >= n {
        return None;
    }
    let c = s[j];
    if c == '\'' && n - j > 2 && s[j + 1] != '\'' && s[j + 2] == '\'' {
        return Some((Token::Char(s[j + 1]), j + 3));
    }
    if is_decimal_digit(c) {
        let e = digits_from(s, j + 1);
        assert(digits_end(s@, j as int) == digits_end(s@, j + 1));
        if e < n && n - e > 1 && s[e] == '.' && is_decimal_digit(s[e + 1]) {
            let f = digits_from(s, e + 1);
            return Some((Token::Float(string_of_range(s, j, f)), f));
        } else {
            return Some((Token::Int(string_of_range(s, j, e)), e));
        }
    }
    if is_ident_start(c) {
        let e = ident_from(s, j + 1);
        let t = if spells(s, j, e, "Void") {
            Token::Void
        } else if spells(s, j, e, "true") {
            Token::Bool(true)
        } else if spells(s, j, e, "false") {
            Token::Bool(false)
        } else {
            Token::Ident(string_of_range(s, j, e))
        };
        return Some((t, e));
    }
    symbol(s, j)
}

/// Reads `source` into tokens, skipping whitespace around each token.
///
/// Fails where some input is left that starts no token; the error gives the position
/// after the last token read (and its trailing whitespace), or 0.
pub fn lexer(source: &str) -> (r: Result<Vec<Token>, LexError>)
    ensures
        match r {
            Ok(ts) => lex(source@) == Some(tokens_view(ts@)),
            Err(err) => lex(source@) is None && err.at == lex_from(source@, 0).1,
        },
{
    let s = chars_of(source);
    let n = s.len();
    let mut toks: Vec<Token> = Vec::new();
    let mut i: usize = 0;
    let ghost whole = lex_from(s@, 0);
    loop
        invariant
            i <= n == s.len(),
            s@ == source@,
            whole == lex_from(s@, 0),
            whole == (tokens_view(toks@) + lex_from(s@, i as int).0, lex_from(s@, i as int).1),
        ensures
            i <= n == s.len(),
            s@ == source@,
            whole == lex_from(s@, 0),
            whole == (tokens_view(toks@), i as int),
        decreases n - i,
    {
        let j = skip_whitespace(&s, i);
        match next_token(&s, j) {
            Some((t, k)) => {
                let k2 = skip_whitespace(&s, k);
                let ghost prev = toks@;
                let ghost tv = t@;
                toks.push(t);
                assert(tokens_view(toks@) =~= tokens_view(prev).push(tv));
                let ghost rest = lex_from(s@, k2 as int);
                assert(tokens_view(prev) + lex_from(s@, i as int).0 =~= tokens_view(toks@)
                    + rest.0);
                i = k2;
            },
            None => {
                assert(lex_from(s@, i as int).0 =~= Seq::<SpecToken>::empty());
                assert(tokens_view(toks@) + lex_from(s@, i as int).0 =~= tokens_view(toks@));
                break ;
            },
        }
    }
    assert(tokens_view(toks@) + Seq::empty() =~= tokens_view(toks@));
    if i == n {
        Ok(toks)
    } else {
        Err(LexError { at: i })
    }
}

} // verus!
