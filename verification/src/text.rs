//! Characters, strings and decimal numerals.

use vstd::prelude::*;

verus! {

// ---------------------------------------------------------------------------
// Character classes
// ---------------------------------------------------------------------------

/// An ASCII decimal digit, the only characters that `char::is_digit(10)` accepts.
pub open spec fn is_digit(c: char) -> bool {
    '0' <= c && c <= '9'
}

/// The value of an ASCII decimal digit.
pub open spec fn digit_value(c: char) -> int {
    c as int - '0' as int
}

/// Every character of `s` is an ASCII decimal digit.
pub open spec fn all_digits(s: Seq<char>) -> bool {
    forall|i: int| 0 <= i < s.len() ==> is_digit(#[trigger] s[i])
}

/// Whether `c` may start an identifier, as chumsky's `text::ident` decides it.
pub uninterp spec fn ident_start(c: char) -> bool;

/// Whether `c` may continue an identifier, as chumsky's `text::ident` decides it.
pub uninterp spec fn ident_continue(c: char) -> bool;

/// The characters with the Unicode `White_Space` property (PropList.txt): U+0009..U+000D,
/// the space, U+0085, U+00A0, U+1680, U+2000..U+200A, U+2028, U+2029, U+202F, U+205F and
/// U+3000. `char::is_whitespace` of std, and with it chumsky's `padded`, reads this class.
pub open spec fn white_space(c: char) -> bool {
    ||| ('\t' <= c && c <= '\r')
    ||| c == ' '
    ||| c == '\u{85}'
    ||| c == '\u{a0}'
    ||| c == '\u{1680}'
    ||| ('\u{2000}' <= c && c <= '\u{200a}')
    ||| c == '\u{2028}'
    ||| c == '\u{2029}'
    ||| c == '\u{202f}'
    ||| c == '\u{205f}'
    ||| c == '\u{3000}'
}

/// An ASCII letter.
pub open spec fn ascii_letter(c: char) -> bool {
    ('a' <= c && c <= 'z') || ('A' <= c && c <= 'Z')
}

/// Whether `c` may start an identifier: an ASCII letter or `_`, or, outside ASCII, a
/// character with the Unicode `XID_Start` property.
pub open spec fn ident_start_char(c: char) -> bool {
    if c <= '\x7f' {
        ascii_letter(c) || c == '_'
    } else {
        ident_start(c)
    }
}

/// Whether `c` may continue an identifier: an ASCII letter, digit or `_`, or, outside
/// ASCII, a character with the Unicode `XID_Continue` property.
pub open spec fn ident_continue_char(c: char) -> bool {
    if c <= '\x7f' {
        ascii_letter(c) || is_digit(c) || c == '_'
    } else {
        ident_continue(c)
    }
}

/// `chumsky::text::Char::is_ident_start` on `char`: `unicode_ident::is_xid_start(c) || c == '_'`.
/// For ASCII characters unicode-ident reads a fixed bit table (`ASCII_START`) whose set
/// bits are exactly the letters; that fact is stated here. Outside ASCII nothing is stated.
#[verifier::external_body]
pub(crate) fn is_ident_start(c: char) -> (r: bool)
    ensures
        r == ident_start(c),
        c <= '\x7f' ==> (r <==> (ascii_letter(c) || c == '_')),
        r == ident_start_char(c),
{
    chumsky::text::Char::is_ident_start(&c)
}

/// `chumsky::text::Char::is_ident_continue` on `char`: `unicode_ident::is_xid_continue(c)`.
/// For ASCII characters unicode-ident reads the bit table `ASCII_CONTINUE`, whose set bits
/// are the letters, the digits and `_`; that fact is stated here. Outside ASCII nothing is stated.
#[verifier::external_body]
pub(crate) fn is_ident_continue(c: char) -> (r: bool)
    ensures
        r == ident_continue(c),
        c <= '\x7f' ==> (r <==> (ascii_letter(c) || is_digit(c) || c == '_')),
        r == ident_continue_char(c),
{
    chumsky::text::Char::is_ident_continue(&c)
}

/// `chumsky::text::Char::is_whitespace` on `char`, which calls `char::is_whitespace` of std:
/// whether `c` has the Unicode `White_Space` property.
#[verifier::external_body]
pub(crate) fn is_text_whitespace(c: char) -> (r: bool)
    ensures
        r == white_space(c),
{
    chumsky::text::Char::is_whitespace(&c)
}

/// Whether `c` has the Unicode `White_Space` property, as `char::is_whitespace` of std
/// decides it.
pub fn is_unicode_whitespace(c: char) -> (r: bool)
    ensures
        r == white_space(c),
{
    ('\t' <= c && c <= '\r') || c == ' ' || c == '\u{85}' || c == '\u{a0}' || c == '\u{1680}'
        || ('\u{2000}' <= c && c <= '\u{200a}') || c == '\u{2028}' || c == '\u{2029}'
        || c == '\u{202f}' || c == '\u{205f}' || c == '\u{3000}'
}

/// Whether `c` is an ASCII decimal digit.
pub fn is_decimal_digit(c: char) -> (r: bool)
    ensures
        r == is_digit(c),
{
    '0' <= c && c <= '9'
}

// ---------------------------------------------------------------------------
// Strings as character sequences
// ---------------------------------------------------------------------------

/// Appends one character to a `String` (`String::push` of std).
#[verifier::external_body]
pub(crate) fn push_char(s: &mut String, c: char)
    ensures
        final(s)@ == old(s)@.push(c),
{
    s.push(c);
}

/// The characters of a string slice, in order.
pub fn chars_of(s: &str) -> (v: Vec<char>)
    ensures
        v@ == s@,
{
    let mut v: Vec<char> = Vec::new();
    for c in it: s.chars()
        invariant
            v@ == it.seq().take(it.index() as int),
    {
        v.push(c);
    }
    v
}

/// A `String` holding the given characters.
pub fn string_of(v: &[char]) -> (s: String)
    ensures
        s@ == v@,
{
    let mut s = String::new();
    let mut i: usize = 0;
    while i < v.len()
        invariant
            i <= v.len(),
            s@ == v@.take(i as int),
        decreases v.len() - i,
    {
        push_char(&mut s, v[i]);
        i += 1;
    }
    assert(v@.take(v.len() as int) =~= v@);
    s
}

/// A `String` holding `v[from..to]`.
pub fn string_of_range(v: &[char], from: usize, to: usize) -> (s: String)
    requires
        from <= to <= v.len(),
    ensures
        s@ == v@.subrange(from as int, to as int),
{
    let mut s = String::new();
    let mut i: usize = from;
    while i < to
        invariant
            from <= i <= to <= v.len(),
            s@ == v@.subrange(from as int, i as int),
        decreases to - i,
    {
        push_char(&mut s, v[i]);
        i += 1;
    }
    s
}

/// Appends the characters of `s` to `out`.
pub fn append_str(out: &mut Vec<char>, s: &str)
    ensures
        final(out)@ == old(out)@ + s@,
{
    let mut cs = chars_of(s);
    out.append(&mut cs);
}

// ---------------------------------------------------------------------------
// Decimal numerals
// ---------------------------------------------------------------------------

/// The value of a sequence of decimal digits, most significant first.
pub open spec fn digits_value(s: Seq<char>) -> nat
    decreases s.len(),
{
    if s.len() == 0 {
        0
    } else {
        (digits_value(s.drop_last()) * 10 + digit_value(s.last())) as nat
    }
}

/// What `str::parse::<i64>` of std returns: an optional `+` or `-`, then one or more
/// ASCII digits, whose signed value must lie in the range of `i64`.
pub open spec fn std_parse_i64(s: Seq<char>) -> Option<i64> {
    let neg = s.len() > 0 && s[0] == '-';
    let body = if s.len() > 0 && (s[0] == '-' || s[0] == '+') {
        s.drop_first()
    } else {
        s
    };
    if body.len() == 0 || !all_digits(body) {
        None
    } else {
        let v: int = if neg {
            -digits_value(body)
        } else {
            digits_value(body) as int
        };
        if i64::MIN <= v <= i64::MAX {
            Some(v as i64)
        } else {
            None
        }
    }
}

proof fn lemma_digits_value_step(s: Seq<char>, i: int)
    requires
        0 <= i < s.len(),
        is_digit(s[i]),
    ensures
        digits_value(s.take(i + 1)) == digits_value(s.take(i)) * 10 + digit_value(s[i]),
{
    assert(s.take(i + 1).drop_last() =~= s.take(i));
}

/// The value of the digit run `s[from..to]`, or 2^64 where it is 2^64 or more.
pub fn capped_digits_value(s: &[char], from: usize, to: usize) -> (v: u128)
    requires
        from <= to <= s.len(),
        all_digits(s@.subrange(from as int, to as int)),
    ensures
        v == if digits_value(s@.subrange(from as int, to as int)) < 0x1_0000_0000_0000_0000 {
            digits_value(s@.subrange(from as int, to as int)) as int
        } else {
            0x1_0000_0000_0000_0000int
        },
{
    let cap: u128 = 0x1_0000_0000_0000_0000;
    let mut v: u128 = 0;
    let mut i: usize = from;
    let ghost body = s@.subrange(from as int, to as int);
    while i < to
        invariant
            from <= i <= to <= s.len(),
            body == s@.subrange(from as int, to as int),
            all_digits(body),
            cap == 0x1_0000_0000_0000_0000u128,
            v <= cap,
            v == if digits_value(body.take(i - from)) < cap {
                digits_value(body.take(i - from)) as int
            } else {
                cap as int
            },
        decreases to - i,
    {
        let ghost k = i - from;
        proof {
            assert(body[k] == s@[i as int]);
            assert(is_digit(body[k]));
            lemma_digits_value_step(body, k);
        }
        let d = (s[i] as u32 - '0' as u32) as u128;
        assert(d <= 9 && d == digit_value(body[k]));
        let next = v * 10 + d;
        v = if next < cap {
            next
        } else {
            cap
        };
        i += 1;
    }
    assert(body.take(to - from) =~= body);
    v
}

/// `str::parse::<i64>` on a sequence of characters.
pub fn parse_i64(s: &[char]) -> (r: Option<i64>)
    ensures
        r == std_parse_i64(s@),
{
    let n = s.len();
    let neg = n > 0 && s[0] == '-';
    let start: usize = if n > 0 && (s[0] == '-' || s[0] == '+') {
        1
    } else {
        0
    };
    let ghost body = s@.subrange(start as int, n as int);
    assert(body =~= if s@.len() > 0 && (s@[0] == '-' || s@[0] == '+') {
        s@.drop_first()
    } else {
        s@
    });
    if start == n {
        return None;
    }
    let mut i = start;
    while i < n
        invariant
            start <= i <= n == s.len(),
            body == s@.subrange(start as int, n as int),
            body == if s@.len() > 0 && (s@[0] == '-' || s@[0] == '+') {
                s@.drop_first()
            } else {
                s@
            },
            forall|j: int| start <= j < i ==> is_digit(#[trigger] s@[j]),
        decreases n - i,
    {
        if !is_decimal_digit(s[i]) {
            assert(!is_digit(body[i - start]));
            return None;
        }
        i += 1;
    }
    assert(all_digits(body)) by {
        assert forall|j: int| 0 <= j < body.len() implies is_digit(#[trigger] body[j]) by {
            assert(body[j] == s@[j + start]);
        }
    }
    let v = capped_digits_value(s, start, n);
    if neg {
        if v <= 0x8000_0000_0000_0000 {
            Some((0 - v as i128) as i64)
        } else {
            None
        }
    } else {
        if v <= 0x7fff_ffff_ffff_ffff {
            Some(v as i64)
        } else {
            None
        }
    }
}

/// The decimal digits of `n`, most significant first, without leading zeros ("0" for zero).
pub open spec fn decimal(n: nat) -> Seq<char>
    decreases n,
{
    if n < 10 {
        seq![(n + '0' as nat) as char]
    } else {
        decimal(n / 10).push(((n % 10) + '0' as nat) as char)
    }
}

/// How `Display` writes an integer: a `-` before the digits of a negative number.
pub open spec fn int_text(i: int) -> Seq<char> {
    if i < 0 {
        seq!['-'] + decimal((-i) as nat)
    } else {
        decimal(i as nat)
    }
}

/// Appends the decimal digits of `n`.
pub fn push_decimal(out: &mut Vec<char>, n: u64)
    ensures
        final(out)@ == old(out)@ + decimal(n as nat),
    decreases n,
{
    if n < 10 {
        out.push(((n as u8) + 48u8) as char);
        assert(out@ =~= old(out)@ + decimal(n as nat));
    } else {
        push_decimal(out, n / 10);
        out.push((((n % 10) as u8) + 48u8) as char);
        assert(out@ =~= old(out)@ + decimal(n as nat));
    }
}

/// Appends `i` as `Display` writes it.
pub fn push_int(out: &mut Vec<char>, i: i64)
    ensures
        final(out)@ == old(out)@ + int_text(i as int),
{
    if i < 0 {
        out.push('-');
        let m: u64 = (0 - (i as i128)) as u64;
        push_decimal(out, m);
        assert(out@ =~= old(out)@ + int_text(i as int));
    } else {
        push_decimal(out, i as u64);
    }
}

// ---------------------------------------------------------------------------
// Decimal numerals with a point
// ---------------------------------------------------------------------------

/// `s` without its leading `0`s.
pub open spec fn drop_leading_zeros(s: Seq<char>) -> Seq<char>
    decreases s.len(),
{
    if s.len() > 0 && s[0] == '0' {
        drop_leading_zeros(s.drop_first())
    } else {
        s
    }
}

/// `s` without its trailing `0`s.
pub open spec fn drop_trailing_zeros(s: Seq<char>) -> Seq<char>
    decreases s.len(),
{
    if s.len() > 0 && s.last() == '0' {
        drop_trailing_zeros(s.drop_last())
    } else {
        s
    }
}

/// `s` is a decimal numeral with its point at `k`: digits, `.`, digits, at least one on
/// each side (the shape of the float tokens that the lexer makes).
pub open spec fn point_at(s: Seq<char>, k: int) -> bool {
    &&& 0 < k < s.len() - 1
    &&& s[k] == '.'
    &&& all_digits(s.take(k))
    &&& all_digits(s.skip(k + 1))
}

/// The value of the decimal numeral `whole.frac` written as `Display` writes an `f64`:
/// the whole part without leading zeros (`0` where none remains), then, where the
/// fraction without its trailing zeros is not empty, a point and that fraction.
pub open spec fn decimal_display(whole: Seq<char>, frac: Seq<char>) -> Seq<char> {
    let w = if drop_leading_zeros(whole).len() == 0 {
        seq!['0']
    } else {
        drop_leading_zeros(whole)
    };
    let f = drop_trailing_zeros(frac);
    if f.len() == 0 {
        w
    } else {
        w + seq!['.'] + f
    }
}

/// The text of a float literal written as `s`: a decimal numeral with a point is written
/// in the form of `decimal_display`; any other text stays as it is.
pub open spec fn float_text(s: Seq<char>) -> Seq<char> {
    if exists|k: int| point_at(s, k) {
        let k = choose|k: int| point_at(s, k);
        decimal_display(s.take(k), s.skip(k + 1))
    } else {
        s
    }
}

proof fn lemma_point_unique(s: Seq<char>, k: int, j: int)
    requires
        point_at(s, k),
        point_at(s, j),
    ensures
        k == j,
{
    if k < j {
        assert(s.skip(k + 1)[j - k - 1] == s[j]);
        assert(is_digit(s.skip(k + 1)[j - k - 1]));
    } else if j < k {
        assert(s.skip(j + 1)[k - j - 1] == s[k]);
        assert(is_digit(s.skip(j + 1)[k - j - 1]));
    }
}

/// Appends the text of the float literal written as `s` (see `float_text`).
pub fn push_float_text(out: &mut Vec<char>, s: &[char])
    ensures
        final(out)@ == old(out)@ + float_text(s@),
{
    let n = s.len();
    // The first point, if any, and whether everything before it is a digit.
    let mut k: usize = 0;
    while k < n && is_decimal_digit(s[k])
        invariant
            k <= n == s.len(),
            all_digits(s@.take(k as int)),
        decreases n - k,
    {
        assert(s@.take(k + 1) =~= s@.take(k as int).push(s@[k as int]));
        k += 1;
    }
    let mut shaped = 0 < k && k < n && n - k > 1 && s[k] == '.';
    let mut m: usize = k;
    if shaped {
        m = k + 1;
        while m < n && is_decimal_digit(s[m])
            invariant
                k + 1 <= m <= n == s.len(),
                all_digits(s@.subrange(k + 1, m as int)),
            decreases n - m,
        {
            assert(s@.subrange(k + 1, m + 1) =~= s@.subrange(k + 1, m as int).push(s@[m as int]));
            m += 1;
        }
        shaped = m == n;
    }
    if !shaped {
        proof {
            if exists|j: int| point_at(s@, j) {
                let j = choose|j: int| point_at(s@, j);
                if j < k {
                    assert(s@.take(j + 1)[j] == s@[j]);
                    assert(s@.take(k as int)[j] == s@[j]);
                } else if j > k {
                    assert(s@.take(j)[k as int] == s@[k as int]);
                } else {
                    assert(s@.skip(k + 1)[m - k - 1] == s@[m as int]);
                }
            }
        }
        let mut i: usize = 0;
        while i < n
            invariant
                i <= n == s.len(),
                out@ == old(out)@ + s@.take(i as int),
            decreases n - i,
        {
            out.push(s[i]);
            assert(s@.take(i + 1) =~= s@.take(i as int).push(s@[i as int]));
            i += 1;
        }
        assert(s@.take(n as int) =~= s@);
        return;
    }
    proof {
        assert(s@.subrange(k + 1, n as int) =~= s@.skip(k + 1));
        assert(point_at(s@, k as int));
        assert forall|j: int| point_at(s@, j) implies j == k by {
            lemma_point_unique(s@, k as int, j);
        }
    }
    // The whole part without its leading zeros.
    let mut a: usize = 0;
    while a < k && s[a] == '0'
        invariant
            a <= k < n == s.len(),
            drop_leading_zeros(s@.take(k as int)) == drop_leading_zeros(s@.subrange(a as int, k as int)),
        decreases k - a,
    {
        assert(s@.subrange(a as int, k as int).drop_first() =~= s@.subrange(a + 1, k as int));
        a += 1;
    }
    assert(drop_leading_zeros(s@.subrange(a as int, k as int)) == s@.subrange(a as int, k as int));
    // The fraction without its trailing zeros.
    let mut b: usize = n;
    while b > k + 1 && s[b - 1] == '0'
        invariant
            k + 1 <= b <= n == s.len(),
            drop_trailing_zeros(s@.skip(k + 1)) == drop_trailing_zeros(s@.subrange(k + 1, b as int)),
        decreases b,
    {
        assert(s@.subrange(k + 1, b as int).drop_last() =~= s@.subrange(k + 1, b - 1));
        b -= 1;
    }
    assert(drop_trailing_zeros(s@.subrange(k + 1, b as int)) == s@.subrange(k + 1, b as int));
    let ghost before = out@;
    if a == k {
        out.push('0');
    } else {
        let mut i: usize = a;
        while i < k
            invariant
                a <= i <= k < n == s.len(),
                out@ == before + s@.subrange(a as int, i as int),
            decreases k - i,
        {
            out.push(s[i]);
            assert(s@.subrange(a as int, i + 1) =~= s@.subrange(a as int, i as int).push(s@[i as int]));
            i += 1;
        }
    }
    let ghost mid = out@;
    if b > k + 1 {
        out.push('.');
        let mut i: usize = k + 1;
        while i < b
            invariant
                k + 1 <= i <= b <= n == s.len(),
                out@ == mid.push('.') + s@.subrange(k + 1, i as int),
            decreases b - i,
        {
            out.push(s[i]);
            assert(s@.subrange(k + 1, i + 1) =~= s@.subrange(k + 1, i as int).push(s@[i as int]));
            i += 1;
        }
    }
    proof {
        let w = if a == k {
            seq!['0']
        } else {
            s@.subrange(a as int, k as int)
        };
        assert(s@.subrange(0, k as int) =~= s@.take(k as int));
        assert(mid == before + w);
        if b > k + 1 {
            assert(out@ =~= before + (w + seq!['.'] + s@.subrange(k + 1, b as int)));
        } else {
            assert(out@ =~= before + w);
        }
    }
}

/// The text of the float literal written as `s` (see `float_text`).
pub fn float_display(s: &str) -> (r: String)
    ensures
        r@ == float_text(s@),
{
    let cs = chars_of(s);
    let mut out: Vec<char> = Vec::new();
    push_float_text(&mut out, &cs);
    assert(out@ =~= float_text(s@));
    string_of(&out)
}

} // verus!
