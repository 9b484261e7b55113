//! The abstract model of CSS tokenization: https://www.w3.org/TR/css-syntax-3/#tokenization
//!
//! Each spec function below reads the input `s` from a cursor `p` and gives what
//! the tokenizer consumes there and where the cursor ends up. The cursor may stand
//! past the end of the input: reading at the end still moves it.
//! `None` marks the inputs whose tokenization is not supported (an escaped
//! hexadecimal code point, or an integer that does not fit in `i32`).
use vstd::prelude::*;

use crate::css::token::HashType;
use crate::text::{ascii_alpha, ascii_digit, ascii_hex_digit, eq_ignore_ascii_case};

verus! {

broadcast use vstd::seq::group_seq_axioms;

/// A numeric value as the tokenizer reads it: an integer, or the text of a number
/// with a fraction or an exponent.
#[verifier::ext_equal]
pub enum NumberModel {
    Integer(i32),
    Number(Seq<char>),
}

/// A CSS token as a mathematical value.
#[verifier::ext_equal]
pub enum CssTokenModel {
    Ident(Seq<char>),
    Function(Seq<char>),
    AtKeyword(Seq<char>),
    Hash(Seq<char>, HashType),
    QuotedString(Seq<char>),
    BadString,
    Url(Seq<char>),
    BadUrl,
    Delim(char),
    Number(NumberModel),
    Percentage(NumberModel),
    Dimension(NumberModel, Seq<char>),
    Whitespace,
    Cdo,
    Cdc,
    Colon,
    Semicolon,
    Comma,
    OpenSquareBracket,
    CloseSquareBracket,
    OpenParenthesis,
    CloseParenthesis,
    OpenCurlyBrace,
    CloseCurlyBrace,
    Eof,
}

/// What reading one token from a cursor gives.
pub enum Lexed {
    /// The token, and the cursor after it.
    Token(CssTokenModel, int),
    /// A comment runs to the end of the input.
    UnterminatedComment,
    /// The input holds something whose tokenization is not supported.
    Unsupported,
}

/// What tokenizing the rest of the input gives.
pub enum Lexing {
    Tokens(Seq<CssTokenModel>),
    UnterminatedComment,
    Unsupported,
}

/// The character at `p`, if there is one.
pub open spec fn at(s: Seq<char>, p: int) -> Option<char> {
    if 0 <= p < s.len() {
        Some(s[p])
    } else {
        None
    }
}

/// https://www.w3.org/TR/css-syntax-3/#ident-start-code-point
pub open spec fn ident_start(c: char) -> bool {
    ascii_alpha(c) || c >= '\u{0080}' || c == '_'
}

/// https://www.w3.org/TR/css-syntax-3/#ident-code-point
pub open spec fn ident_char(c: char) -> bool {
    ident_start(c) || ascii_digit(c) || c == '-'
}

/// https://w3.org/TR/css-syntax-3/#whitespace: line feed, tab and space.
pub open spec fn css_ws(c: char) -> bool {
    c == '\n' || c == '\t' || c == ' '
}

/// `Some(c)` with `c` satisfying `f`.
pub open spec fn is_some_and(c: Option<char>, f: spec_fn(char) -> bool) -> bool {
    c matches Some(x) && f(x)
}

/// https://www.w3.org/TR/css-syntax-3/#check-if-two-code-points-are-a-valid-escape
pub open spec fn valid_escape(a: Option<char>, b: Option<char>) -> bool {
    a == Some('\\') && b != Some('\n')
}

/// https://www.w3.org/TR/css-syntax-3/#would-start-an-identifier
pub open spec fn would_start_ident(a: Option<char>, b: Option<char>, c: Option<char>) -> bool {
    ||| a == Some('-') && (b == Some('-') || is_some_and(b, |x: char| ident_start(x)) || valid_escape(b, c))
    ||| a == Some('\\') && valid_escape(a, b)
    ||| is_some_and(a, |x: char| ident_start(x))
}

/// https://www.w3.org/TR/css-syntax-3/#starts-with-a-number
pub open spec fn would_start_number(a: Option<char>, b: Option<char>, c: Option<char>) -> bool {
    ||| is_some_and(a, |x: char| ascii_digit(x))
    ||| (a == Some('+') || a == Some('-') || a == Some('.')) && is_some_and(b, |x: char| ascii_digit(x))
    ||| (a == Some('+') || a == Some('-')) && b == Some('.') && is_some_and(c, |x: char| ascii_digit(x))
}

/// The cursor after the comment whose text is read from `j` on (after its `/*`), if it
/// ends: the comment ends at the first `/` that follows a `*`.
pub open spec fn comment_end(s: Seq<char>, j: int, star: bool) -> Option<int>
    decreases s.len() - j,
{
    if j < 0 || j >= s.len() {
        None
    } else if s[j] == '*' {
        comment_end(s, j + 1, true)
    } else if s[j] == '/' && star {
        Some(j + 1)
    } else {
        comment_end(s, j + 1, false)
    }
}

/// The cursor after the comments that start at `p`, one after the other; `None`
/// where one of them runs to the end of the input.
pub open spec fn skip_comments(s: Seq<char>, p: int) -> Option<int>
    decreases s.len() - p,
{
    if at(s, p) == Some('/') && at(s, p + 1) == Some('*') {
        match comment_end(s, p + 2, false) {
            None => None,
            Some(q) => if p < q <= s.len() {
                skip_comments(s, q)
            } else {
                Some(p)
            },
        }
    } else {
        Some(p)
    }
}

/// The cursor after the whitespace that starts at `p`.
pub open spec fn ws_end(s: Seq<char>, p: int) -> int
    decreases s.len() - p,
{
    if 0 <= p < s.len() && css_ws(s[p]) {
        ws_end(s, p + 1)
    } else {
        p
    }
}

/// The cursor after the digits that start at `p`.
pub open spec fn digits_end(s: Seq<char>, p: int) -> int
    decreases s.len() - p,
{
    if 0 <= p < s.len() && ascii_digit(s[p]) {
        digits_end(s, p + 1)
    } else {
        p
    }
}

/// https://www.w3.org/TR/css-syntax-3/#consume-escaped-code-point, read from `j`
/// (just after the backslash): the code point and the cursor after it.
pub open spec fn escape(s: Seq<char>, j: int) -> Option<(char, int)> {
    match at(s, j) {
        None => Some(('\u{FFFD}', j + 1)),
        Some(c) => if ascii_hex_digit(c) {
            None
        } else {
            Some((c, j + 1))
        },
    }
}

/// https://www.w3.org/TR/css-syntax-3/#consume-name, from `p`: the name and the
/// cursor after it.
pub open spec fn ident_seq(s: Seq<char>, p: int) -> Option<(Seq<char>, int)>
    decreases s.len() + 2 - p,
{
    if p < 0 || p > s.len() + 1 {
        Some((Seq::empty(), p))
    } else if is_some_and(at(s, p), |x: char| ident_char(x)) {
        match ident_seq(s, p + 1) {
            None => None,
            Some((r, q)) => Some((seq![s[p]] + r, q)),
        }
    } else if valid_escape(at(s, p), at(s, p + 1)) {
        match escape(s, p + 1) {
            None => None,
            Some((c, q)) => if p < q <= s.len() + 1 {
                match ident_seq(s, q) {
                    None => None,
                    Some((r, q2)) => Some((seq![c] + r, q2)),
                }
            } else {
                Some((Seq::empty(), p))
            },
        }
    } else {
        Some((Seq::empty(), p))
    }
}

/// `r` with `acc` put before the name that it holds.
pub open spec fn prefixed(acc: Seq<char>, r: Option<(Seq<char>, int)>) -> Option<(Seq<char>, int)> {
    match r {
        None => None,
        Some((name, q)) => Some((acc + name, q)),
    }
}

/// Every character of `d` is a decimal digit.
pub open spec fn all_digits(d: Seq<char>) -> bool {
    forall|k: int| 0 <= k < d.len() ==> ascii_digit(#[trigger] d[k])
}

/// The value of a run of decimal digits.
pub open spec fn digits_value(d: Seq<char>) -> int
    decreases d.len(),
{
    if d.len() == 0 {
        0
    } else {
        digits_value(d.drop_last()) * 10 + (d.last() as int - '0' as int)
    }
}

/// The value of a prefix of a run of digits is at most that of the whole run.
pub proof fn lemma_digits_value_prefix(d: Seq<char>, k: int)
    requires
        all_digits(d),
        0 <= k <= d.len(),
    ensures
        0 <= digits_value(d.take(k)) <= digits_value(d),
    decreases d.len(),
{
    if d.len() > 0 {
        let e = d.drop_last();
        assert(all_digits(e)) by {
            assert forall|j: int| 0 <= j < e.len() implies ascii_digit(#[trigger] e[j]) by {
                assert(e[j] == d[j]);
            }
        }
        assert(ascii_digit(d[d.len() - 1]));
        if k == d.len() {
            lemma_digits_value_prefix(e, e.len() as int);
            assert(d.take(k) =~= d);
            assert(e.take(e.len() as int) =~= e);
        } else {
            lemma_digits_value_prefix(e, k);
            assert(d.take(k) =~= e.take(k));
            lemma_digits_value_prefix(e, e.len() as int);
            assert(e.take(e.len() as int) =~= e);
        }
    } else {
        assert(d.take(k) =~= d);
    }
}

/// The integer that `repr` (an optional sign and at least one digit) stands for.
pub open spec fn integer_value(repr: Seq<char>) -> int {
    if repr.len() > 0 && repr[0] == '-' {
        -digits_value(repr.drop_first())
    } else if repr.len() > 0 && repr[0] == '+' {
        digits_value(repr.drop_first())
    } else {
        digits_value(repr)
    }
}

/// The cursor after the fraction and exponent of a number whose integer part ends at `q`,
/// and whether there is either.
pub open spec fn number_tail(s: Seq<char>, q: int) -> (int, bool) {
    let (q1, frac) = if at(s, q) == Some('.') && is_some_and(at(s, q + 1), |x: char| ascii_digit(x)) {
        (digits_end(s, q + 1), true)
    } else {
        (q, false)
    };
    if (at(s, q1) == Some('E') || at(s, q1) == Some('e')) && is_some_and(
        at(s, q1 + 1),
        |x: char| ascii_digit(x),
    ) {
        (digits_end(s, q1 + 1), true)
    } else if (at(s, q1) == Some('E') || at(s, q1) == Some('e')) && (at(s, q1 + 1) == Some('+') || at(
        s,
        q1 + 1,
    ) == Some('-')) && is_some_and(at(s, q1 + 2), |x: char| ascii_digit(x)) {
        (digits_end(s, q1 + 2), true)
    } else {
        (q1, frac)
    }
}

/// https://www.w3.org/TR/css-syntax-3/#consume-number, from `p`: the number and the
/// cursor after it. An integer is `None` where it has no digit or does not fit in `i32`.
pub open spec fn number(s: Seq<char>, p: int) -> Option<(NumberModel, int)> {
    let p1 = if at(s, p) == Some('+') || at(s, p) == Some('-') {
        p + 1
    } else {
        p
    };
    let q = digits_end(s, p1);
    let (q2, is_number) = number_tail(s, q);
    let repr = s.subrange(p, q2);
    if is_number {
        Some((NumberModel::Number(repr), q2))
    } else if q > p1 && i32::MIN <= integer_value(repr) <= i32::MAX {
        Some((NumberModel::Integer(integer_value(repr) as i32), q2))
    } else {
        None
    }
}

/// https://www.w3.org/TR/css-syntax-3/#consume-numeric-token, from `p`.
pub open spec fn numeric(s: Seq<char>, p: int) -> Option<(CssTokenModel, int)> {
    match number(s, p) {
        None => None,
        Some((n, q)) => if would_start_ident(at(s, q), at(s, q + 1), at(s, q + 2)) {
            match ident_seq(s, q) {
                None => None,
                Some((unit, q2)) => Some((CssTokenModel::Dimension(n, unit), q2)),
            }
        } else if at(s, q) == Some('%') {
            Some((CssTokenModel::Percentage(n), q + 1))
        } else {
            Some((CssTokenModel::Number(n), q))
        },
    }
}

/// https://www.w3.org/TR/css-syntax-3/#consume-string-token, from `p` (just after the
/// opening quote `end`), with `acc` read so far.
pub open spec fn string_tok(s: Seq<char>, p: int, end: char, acc: Seq<char>) -> Option<(CssTokenModel, int)>
    decreases s.len() + 2 - p,
{
    if p < 0 || p > s.len() {
        Some((CssTokenModel::QuotedString(acc), p))
    } else {
        match at(s, p) {
            None => Some((CssTokenModel::QuotedString(acc), p + 1)),
            Some(c) => if c == end {
                Some((CssTokenModel::QuotedString(acc), p + 1))
            } else if c == '\n' {
                Some((CssTokenModel::BadString, p))
            } else if c == '\\' {
                match at(s, p + 1) {
                    None => string_tok(s, p + 1, end, acc),
                    Some(d) => if d == '\n' {
                        string_tok(s, p + 2, end, acc)
                    } else {
                        match escape(s, p + 1) {
                            None => None,
                            Some((e, q)) => if p < q {
                                string_tok(s, q, end, acc.push(e))
                            } else {
                                Some((CssTokenModel::QuotedString(acc), p))
                            },
                        }
                    },
                }
            } else {
                string_tok(s, p + 1, end, acc.push(c))
            },
        }
    }
}

/// https://www.w3.org/TR/css-syntax-3/#consume-remnants-of-bad-url, from `p`: the
/// cursor after the closing parenthesis (or the end).
pub open spec fn remnants(s: Seq<char>, p: int) -> Option<int>
    decreases s.len() + 2 - p,
{
    if p < 0 || p > s.len() + 1 {
        Some(p)
    } else {
        match at(s, p) {
            None => Some(p + 1),
            Some(c) => if c == ')' {
                Some(p + 1)
            } else if valid_escape(at(s, p), at(s, p + 1)) {
                match escape(s, p + 1) {
                    None => None,
                    Some((_, q)) => if p < q {
                        remnants(s, q)
                    } else {
                        Some(p)
                    },
                }
            } else {
                remnants(s, p + 1)
            },
        }
    }
}

/// A character that may not stand unescaped in an unquoted URL.
pub open spec fn bad_url_char(c: char) -> bool {
    c == '"' || c == '\'' || c == '(' || c <= '\u{0008}' || c == '\u{000B}' || ('\u{000E}' <= c && c
        <= '\u{001F}') || c == '\u{007F}'
}

/// A bad URL token that ends where the remnants read from `p` end.
pub open spec fn bad_url(s: Seq<char>, p: int) -> Option<(CssTokenModel, int)> {
    match remnants(s, p) {
        None => None,
        Some(q) => Some((CssTokenModel::BadUrl, q)),
    }
}

/// https://www.w3.org/TR/css-syntax-3/#consume-url-token, the body from `p` on, with `acc`
/// read so far.
pub open spec fn url_body(s: Seq<char>, p: int, acc: Seq<char>) -> Option<(CssTokenModel, int)>
    decreases s.len() + 2 - p,
{
    if p < 0 || p > s.len() + 1 {
        Some((CssTokenModel::Url(acc), p))
    } else {
        match at(s, p) {
            None => Some((CssTokenModel::Url(acc), p + 1)),
            Some(c) => if c == ')' {
                Some((CssTokenModel::Url(acc), p + 1))
            } else if bad_url_char(c) {
                bad_url(s, p + 1)
            } else if c == '\\' {
                if valid_escape(Some('\\'), at(s, p + 1)) {
                    match escape(s, p + 1) {
                        None => None,
                        Some((e, q)) => if p < q {
                            url_body(s, q, acc.push(e))
                        } else {
                            Some((CssTokenModel::Url(acc), p))
                        },
                    }
                } else {
                    bad_url(s, p + 1)
                }
            } else if css_ws(c) {
                let q = ws_end(s, p + 1);
                if at(s, q) == Some(')') || at(s, q) is None {
                    Some((CssTokenModel::Url(acc), q + 1))
                } else {
                    bad_url(s, q)
                }
            } else {
                url_body(s, p + 1, acc.push(c))
            },
        }
    }
}

/// The cursor after the pairs of whitespace characters that start at `p`: the
/// tokenizer reads one whitespace character while the next two are whitespace.
pub open spec fn paired_ws_end(s: Seq<char>, p: int) -> int
    decreases s.len() - p,
{
    if 0 <= p && p + 1 < s.len() && css_ws(s[p]) && css_ws(s[p + 1]) {
        paired_ws_end(s, p + 1)
    } else {
        p
    }
}

/// `"url"`.
pub open spec fn url_word() -> Seq<char> {
    seq!['u', 'r', 'l']
}

/// A quotation mark or an apostrophe.
pub open spec fn quote(c: Option<char>) -> bool {
    c == Some('"') || c == Some('\'')
}

/// https://www.w3.org/TR/css-syntax-3/#consume-ident-like-token, from `p`.
pub open spec fn ident_like(s: Seq<char>, p: int) -> Option<(CssTokenModel, int)> {
    match ident_seq(s, p) {
        None => None,
        Some((name, q)) => if eq_ignore_ascii_case(name, url_word()) && at(s, q) == Some('(') {
            let q2 = paired_ws_end(s, q + 1);
            if quote(at(s, q2)) || (at(s, q2) == Some(' ') && quote(at(s, q2 + 1))) {
                Some((CssTokenModel::Function(name), q2))
            } else {
                url_body(s, ws_end(s, q2), Seq::empty())
            }
        } else if at(s, q) == Some('(') {
            Some((CssTokenModel::Function(name), q + 1))
        } else {
            Some((CssTokenModel::Ident(name), q))
        },
    }
}

/// A token read by a helper, or `Unsupported` where the helper gives `None`.
pub open spec fn lexed(r: Option<(CssTokenModel, int)>) -> Lexed {
    match r {
        None => Lexed::Unsupported,
        Some((t, q)) => Lexed::Token(t, q),
    }
}

/// https://www.w3.org/TR/css-syntax-3/#consume-token, from `p` (after the comments there).
pub open spec fn token_after_comments(s: Seq<char>, p: int) -> Lexed {
    let p1 = p + 1;
    match at(s, p) {
        None => Lexed::Token(CssTokenModel::Eof, p1),
        Some(c) => if css_ws(c) {
            Lexed::Token(CssTokenModel::Whitespace, ws_end(s, p1))
        } else if c == '"' || c == '\'' {
            lexed(string_tok(s, p1, c, Seq::empty()))
        } else if c == '#' {
            if is_some_and(at(s, p1), |x: char| ident_char(x)) {
                let kind = if would_start_ident(at(s, p1), at(s, p1 + 1), at(s, p1 + 2)) {
                    HashType::Id
                } else {
                    HashType::Unrestricted
                };
                match ident_seq(s, p1) {
                    None => Lexed::Unsupported,
                    Some((name, q)) => Lexed::Token(CssTokenModel::Hash(name, kind), q),
                }
            } else {
                Lexed::Token(CssTokenModel::Delim(c), p1)
            }
        } else if c == '(' {
            Lexed::Token(CssTokenModel::OpenParenthesis, p1)
        } else if c == ')' {
            Lexed::Token(CssTokenModel::CloseParenthesis, p1)
        } else if c == '+' {
            if would_start_number(Some(c), at(s, p1), at(s, p1 + 1)) {
                lexed(numeric(s, p))
            } else {
                Lexed::Token(CssTokenModel::Delim(c), p1)
            }
        } else if c == ',' {
            Lexed::Token(CssTokenModel::Comma, p1)
        } else if c == '-' {
            if would_start_number(Some(c), at(s, p1), at(s, p1 + 1)) {
                lexed(numeric(s, p))
            } else if at(s, p1) == Some('-') && at(s, p1 + 1) == Some('>') {
                Lexed::Token(CssTokenModel::Cdc, p1 + 2)
            } else if would_start_ident(Some(c), at(s, p1), at(s, p1 + 1)) {
                lexed(ident_like(s, p))
            } else {
                Lexed::Token(CssTokenModel::Delim(c), p1)
            }
        } else if c == '.' {
            if would_start_number(Some(c), at(s, p1), at(s, p1 + 1)) {
                lexed(numeric(s, p))
            } else {
                Lexed::Token(CssTokenModel::Delim(c), p1)
            }
        } else if c == ':' {
            Lexed::Token(CssTokenModel::Colon, p1)
        } else if c == ';' {
            Lexed::Token(CssTokenModel::Semicolon, p1)
        } else if c == '<' {
            if at(s, p1) == Some('!') && at(s, p1 + 1) == Some('-') && at(s, p1 + 2) == Some('-') {
                Lexed::Token(CssTokenModel::Cdo, p1 + 3)
            } else {
                Lexed::Token(CssTokenModel::Delim(c), p1)
            }
        } else if c == '@' {
            if would_start_ident(at(s, p1), at(s, p1 + 1), at(s, p1 + 2)) {
                match ident_seq(s, p1) {
                    None => Lexed::Unsupported,
                    Some((name, q)) => Lexed::Token(CssTokenModel::AtKeyword(name), q),
                }
            } else {
                Lexed::Token(CssTokenModel::Delim(c), p1)
            }
        } else if c == '[' {
            Lexed::Token(CssTokenModel::OpenSquareBracket, p1)
        } else if c == '\\' {
            if valid_escape(Some(c), at(s, p1)) {
                lexed(ident_like(s, p))
            } else {
                Lexed::Token(CssTokenModel::Delim(c), p1)
            }
        } else if c == ']' {
            Lexed::Token(CssTokenModel::CloseSquareBracket, p1)
        } else if c == '{' {
            Lexed::Token(CssTokenModel::OpenCurlyBrace, p1)
        } else if c == '}' {
            Lexed::Token(CssTokenModel::CloseCurlyBrace, p1)
        } else if ascii_digit(c) {
            lexed(numeric(s, p))
        } else if ident_start(c) {
            lexed(ident_like(s, p))
        } else {
            Lexed::Token(CssTokenModel::Delim(c), p1)
        },
    }
}

/// https://www.w3.org/TR/css-syntax-3/#consume-token, from `p`: comments first, then one token.
pub open spec fn token_at(s: Seq<char>, p: int) -> Lexed {
    match skip_comments(s, p) {
        None => Lexed::UnterminatedComment,
        Some(q) => token_after_comments(s, q),
    }
}

/// The tokens from `p` to the end of the input, the end-of-file token last.
pub open spec fn tokens_from(s: Seq<char>, p: int) -> Lexing
    decreases s.len() + 3 - p,
{
    match token_at(s, p) {
        Lexed::Unsupported => Lexing::Unsupported,
        Lexed::UnterminatedComment => Lexing::UnterminatedComment,
        Lexed::Token(t, q) => if t is Eof || !(p < q <= s.len() + 2) {
            Lexing::Tokens(seq![t])
        } else {
            match tokens_from(s, q) {
                Lexing::Tokens(ts) => Lexing::Tokens(seq![t] + ts),
                other => other,
            }
        },
    }
}


/// A comment closes after where it starts, and within the input.
pub proof fn lemma_comment_end(s: Seq<char>, j: int, star: bool)
    requires
        0 <= j,
    ensures
        comment_end(s, j, star) matches Some(q) ==> j < q <= s.len(),
    decreases s.len() - j,
{
    if 0 <= j < s.len() {
        lemma_comment_end(s, j + 1, true);
        lemma_comment_end(s, j + 1, false);
    }
}

/// Skipping comments moves the cursor forward, and only within the input.
pub proof fn lemma_skip_comments(s: Seq<char>, p: int)
    requires
        0 <= p,
    ensures
        skip_comments(s, p) matches Some(q) ==> p <= q && (q == p || q <= s.len()),
    decreases s.len() - p,
{
    if at(s, p) == Some('/') && at(s, p + 1) == Some('*') {
        lemma_comment_end(s, p + 2, false);
        if let Some(q) = comment_end(s, p + 2, false) {
            if p < q <= s.len() {
                lemma_skip_comments(s, q);
            }
        }
    }
}

/// Skipping whitespace moves the cursor forward, and only within the input.
pub proof fn lemma_ws_end(s: Seq<char>, p: int)
    requires
        0 <= p,
    ensures
        p <= ws_end(s, p),
        ws_end(s, p) == p || ws_end(s, p) <= s.len(),
    decreases s.len() - p,
{
    if 0 <= p < s.len() && css_ws(s[p]) {
        lemma_ws_end(s, p + 1);
    }
}

/// Skipping digits moves the cursor forward, and only within the input.
pub proof fn lemma_digits_end(s: Seq<char>, p: int)
    requires
        0 <= p,
    ensures
        p <= digits_end(s, p),
        digits_end(s, p) == p || digits_end(s, p) <= s.len(),
    decreases s.len() - p,
{
    if 0 <= p < s.len() && ascii_digit(s[p]) {
        lemma_digits_end(s, p + 1);
    }
}

/// Skipping pairs of whitespace characters moves the cursor forward, within the input.
pub proof fn lemma_paired_ws_end(s: Seq<char>, p: int)
    requires
        0 <= p,
    ensures
        p <= paired_ws_end(s, p),
        paired_ws_end(s, p) == p || paired_ws_end(s, p) <= s.len(),
    decreases s.len() - p,
{
    if 0 <= p && p + 1 < s.len() && css_ws(s[p]) && css_ws(s[p + 1]) {
        lemma_paired_ws_end(s, p + 1);
    }
}

/// A name ends at most one place past the end of the input, and is not empty where
/// it starts with a name character or an escape.
pub proof fn lemma_ident_seq(s: Seq<char>, p: int)
    requires
        0 <= p <= s.len() + 1,
    ensures
        ident_seq(s, p) matches Some((_, q)) ==> p <= q <= s.len() + 1 && ((is_some_and(
            at(s, p),
            |x: char| ident_char(x),
        ) || valid_escape(at(s, p), at(s, p + 1))) ==> p < q),
    decreases s.len() + 2 - p,
{
    if is_some_and(at(s, p), |x: char| ident_char(x)) {
        lemma_ident_seq(s, p + 1);
    } else if valid_escape(at(s, p), at(s, p + 1)) {
        if let Some((c, q)) = escape(s, p + 1) {
            if p < q <= s.len() + 1 {
                lemma_ident_seq(s, q);
            }
        }
    }
}

/// The fraction and exponent of a number lie within the input.
pub proof fn lemma_number_tail(s: Seq<char>, q: int)
    requires
        0 <= q <= s.len(),
    ensures
        q <= number_tail(s, q).0 <= s.len(),
{
    lemma_digits_end(s, q + 1);
    let q1 = number_tail_fraction(s, q);
    lemma_digits_end(s, q1 + 1);
    lemma_digits_end(s, q1 + 2);
}

/// The cursor after the fraction of a number whose integer part ends at `q`.
pub open spec fn number_tail_fraction(s: Seq<char>, q: int) -> int {
    if at(s, q) == Some('.') && is_some_and(at(s, q + 1), |x: char| ascii_digit(x)) {
        digits_end(s, q + 1)
    } else {
        q
    }
}

/// A number that starts with a digit, a sign, or a `.` before a digit is not empty, and
/// lies within the input.
pub proof fn lemma_number(s: Seq<char>, p: int)
    requires
        0 <= p <= s.len(),
    ensures
        number(s, p) matches Some((_, q)) ==> p <= q <= s.len() && ((is_some_and(
            at(s, p),
            |x: char| ascii_digit(x),
        ) || at(s, p) == Some('+') || at(s, p) == Some('-') || (at(s, p) == Some('.') && is_some_and(
            at(s, p + 1),
            |x: char| ascii_digit(x),
        ))) ==> p < q),
{
    if at(s, p) == Some('.') && is_some_and(at(s, p + 1), |x: char| ascii_digit(x)) {
        lemma_digits_end(s, p + 1);
        assert(digits_end(s, p) == p);
        lemma_digits_end(s, digits_end(s, p + 1) + 1);
        lemma_digits_end(s, digits_end(s, p + 1) + 2);
    }
    let p1 = if at(s, p) == Some('+') || at(s, p) == Some('-') {
        p + 1
    } else {
        p
    };
    lemma_digits_end(s, p1);
    let q = digits_end(s, p1);
    lemma_number_tail(s, q);
}

/// A numeric token that starts with a digit, a sign, or a `.` before a digit is not
/// empty, and ends at most one place past the end of the input.
pub proof fn lemma_numeric(s: Seq<char>, p: int)
    requires
        0 <= p <= s.len(),
        is_some_and(at(s, p), |x: char| ascii_digit(x)) || at(s, p) == Some('+') || at(s, p) == Some('-') || (at(
            s,
            p,
        ) == Some('.') && is_some_and(at(s, p + 1), |x: char| ascii_digit(x))),
    ensures
        numeric(s, p) matches Some((_, q)) ==> p < q <= s.len() + 1,
{
    lemma_number(s, p);
    if let Some((n, q)) = number(s, p) {
        lemma_ident_seq(s, q);
    }
}

/// A string token ends at most one place past the end of the input.
pub proof fn lemma_string_tok(s: Seq<char>, p: int, end: char, acc: Seq<char>)
    requires
        0 <= p <= s.len() + 1,
    ensures
        string_tok(s, p, end, acc) matches Some((_, q)) ==> p <= q <= s.len() + 1,
    decreases s.len() + 2 - p,
{
    if let Some(c) = at(s, p) {
        if c != end && c != '\n' && c == '\\' {
            match at(s, p + 1) {
                None => lemma_string_tok(s, p + 1, end, acc),
                Some(d) => if d == '\n' {
                    lemma_string_tok(s, p + 2, end, acc);
                } else if let Some((e, q)) = escape(s, p + 1) {
                    if p < q {
                        lemma_string_tok(s, q, end, acc.push(e));
                    }
                },
            }
        } else if c != end && c != '\n' {
            lemma_string_tok(s, p + 1, end, acc.push(c));
        }
    }
}

/// The remnants of a bad URL end at most two places past the end of the input.
pub proof fn lemma_remnants(s: Seq<char>, p: int)
    requires
        0 <= p <= s.len() + 1,
    ensures
        remnants(s, p) matches Some(q) ==> p <= q <= s.len() + 2,
    decreases s.len() + 2 - p,
{
    if let Some(c) = at(s, p) {
        if c != ')' {
            if valid_escape(at(s, p), at(s, p + 1)) {
                if let Some((_, q)) = escape(s, p + 1) {
                    if p < q {
                        lemma_remnants(s, q);
                    }
                }
            } else {
                lemma_remnants(s, p + 1);
            }
        }
    }
}

/// A URL token ends at most two places past the end of the input.
pub proof fn lemma_url_body(s: Seq<char>, p: int, acc: Seq<char>)
    requires
        0 <= p <= s.len() + 1,
    ensures
        url_body(s, p, acc) matches Some((_, q)) ==> p <= q <= s.len() + 2,
    decreases s.len() + 2 - p,
{
    if let Some(c) = at(s, p) {
        if c == ')' {
        } else if bad_url_char(c) {
            lemma_remnants(s, p + 1);
        } else if c == '\\' {
            if valid_escape(Some('\\'), at(s, p + 1)) {
                if let Some((e, q)) = escape(s, p + 1) {
                    if p < q {
                        lemma_url_body(s, q, acc.push(e));
                    }
                }
            } else {
                lemma_remnants(s, p + 1);
            }
        } else if css_ws(c) {
            lemma_ws_end(s, p + 1);
            let q = ws_end(s, p + 1);
            if !(at(s, q) == Some(')') || at(s, q) is None) {
                lemma_remnants(s, q);
            }
        } else {
            lemma_url_body(s, p + 1, acc.push(c));
        }
    }
}

/// An ident-like token that starts with a name character or an escape is not empty,
/// and ends at most two places past the end of the input.
pub proof fn lemma_ident_like(s: Seq<char>, p: int)
    requires
        0 <= p <= s.len(),
        is_some_and(at(s, p), |x: char| ident_char(x)) || valid_escape(at(s, p), at(s, p + 1)),
    ensures
        ident_like(s, p) matches Some((_, q)) ==> p < q <= s.len() + 2,
{
    lemma_ident_seq(s, p);
    if let Some((name, q)) = ident_seq(s, p) {
        if at(s, q) == Some('(') {
            lemma_paired_ws_end(s, q + 1);
            let q2 = paired_ws_end(s, q + 1);
            lemma_ws_end(s, q2);
            if q2 <= s.len() {
                lemma_url_body(s, ws_end(s, q2), Seq::empty());
            }
        }
    }
}

/// Every token but the last moves the cursor forward, and no token takes it more than
/// two places past the end of the input.
pub proof fn lemma_token_progress(s: Seq<char>, p: int)
    requires
        0 <= p <= s.len() + 2,
    ensures
        token_at(s, p) matches Lexed::Token(t, q) ==> (t is Eof || p < q <= s.len() + 2),
{
    lemma_skip_comments(s, p);
    if let Some(p0) = skip_comments(s, p) {
        if let Some(c) = at(s, p0) {
            let p1 = p0 + 1;
            lemma_ws_end(s, p1);
            lemma_string_tok(s, p1, c, Seq::empty());
            if c == '#' && is_some_and(at(s, p1), |x: char| ident_char(x)) {
                lemma_ident_seq(s, p1);
            }
            if c == '@' {
                lemma_ident_seq(s, p1);
            }
            if c == '+' || c == '-' || ascii_digit(c) || (c == '.' && is_some_and(at(s, p1), |x: char| ascii_digit(x))) {
                lemma_numeric(s, p0);
            }
            if c == '-' || c == '\\' || ident_start(c) {
                if is_some_and(at(s, p0), |x: char| ident_char(x)) || valid_escape(at(s, p0), at(s, p0 + 1)) {
                    lemma_ident_like(s, p0);
                }
            }
        }
    }
}

/// Each bracket and punctuation character read where a token starts is its own token
/// and takes one place: `(` is an open parenthesis, `)` a close parenthesis, `[` and `]`
/// square brackets, `{` and `}` curly brackets, `,` a comma, `:` a colon and `;` a
/// semicolon. After comments too: where the comments that start at `p` end at `q`, the
/// token read at `p` is the one at `q`.
pub proof fn lemma_punctuation_tokens(s: Seq<char>, p: int)
    ensures
        at(s, p) == Some('(') ==> token_after_comments(s, p) == Lexed::Token(CssTokenModel::OpenParenthesis, p + 1),
        at(s, p) == Some(')') ==> token_after_comments(s, p) == Lexed::Token(CssTokenModel::CloseParenthesis, p + 1),
        at(s, p) == Some('[') ==> token_after_comments(s, p) == Lexed::Token(CssTokenModel::OpenSquareBracket, p + 1),
        at(s, p) == Some(']') ==> token_after_comments(s, p) == Lexed::Token(CssTokenModel::CloseSquareBracket, p + 1),
        at(s, p) == Some('{') ==> token_after_comments(s, p) == Lexed::Token(CssTokenModel::OpenCurlyBrace, p + 1),
        at(s, p) == Some('}') ==> token_after_comments(s, p) == Lexed::Token(CssTokenModel::CloseCurlyBrace, p + 1),
        at(s, p) == Some(',') ==> token_after_comments(s, p) == Lexed::Token(CssTokenModel::Comma, p + 1),
        at(s, p) == Some(':') ==> token_after_comments(s, p) == Lexed::Token(CssTokenModel::Colon, p + 1),
        at(s, p) == Some(';') ==> token_after_comments(s, p) == Lexed::Token(CssTokenModel::Semicolon, p + 1),
        forall|q: int|
            skip_comments(s, p) == Some(q) && #[trigger] at(s, q) == Some('(') ==> token_at(s, p) == Lexed::Token(
                CssTokenModel::OpenParenthesis,
                q + 1,
            ),
{
}


proof fn lemma_ws_run(s: Seq<char>, i: int, q: int)
    requires
        0 <= i <= q <= s.len(),
        forall|j: int| i <= j < q ==> css_ws(#[trigger] s[j]),
        q == s.len() || !css_ws(s[q]),
    ensures
        ws_end(s, i) == q,
    decreases q - i,
{
    if i < q {
        lemma_ws_run(s, i + 1, q);
    }
}

/// A run of whitespace is one whitespace token, which ends where the run ends.
pub proof fn lemma_whitespace_token(s: Seq<char>, p: int, q: int)
    requires
        0 <= p < q <= s.len(),
        forall|j: int| p <= j < q ==> css_ws(#[trigger] s[j]),
        q == s.len() || !css_ws(s[q]),
    ensures
        token_after_comments(s, p) == Lexed::Token(CssTokenModel::Whitespace, q),
{
    assert(css_ws(s[p]));
    lemma_ws_run(s, p + 1, q);
}

proof fn lemma_ident_run(s: Seq<char>, i: int, q: int)
    requires
        0 <= i <= q <= s.len(),
        forall|j: int| i <= j < q ==> ident_char(#[trigger] s[j]),
        q == s.len() || (!ident_char(s[q]) && s[q] != '\\'),
    ensures
        ident_seq(s, i) == Some((s.subrange(i, q), q)),
    decreases q - i,
{
    if i < q {
        lemma_ident_run(s, i + 1, q);
        assert(seq![s[i]] + s.subrange(i + 1, q) =~= s.subrange(i, q));
    } else {
        assert(s.subrange(i, q) =~= Seq::<char>::empty());
    }
}

/// A name that starts with a letter, `_` or a non-ASCII character and runs over name
/// characters, followed by neither `(` nor `\\`, is one ident token holding exactly
/// that name, which ends where the name ends.
pub proof fn lemma_ident_token(s: Seq<char>, p: int, q: int)
    requires
        0 <= p < q <= s.len(),
        ident_start(s[p]),
        forall|j: int| p <= j < q ==> ident_char(#[trigger] s[j]),
        q == s.len() || (!ident_char(s[q]) && s[q] != '\\' && s[q] != '('),
    ensures
        token_after_comments(s, p) == Lexed::Token(CssTokenModel::Ident(s.subrange(p, q)), q),
{
    lemma_ident_run(s, p, q);
    let c = s[p];
    assert(ident_start(c));
    assert(!css_ws(c) && c != '"' && c != '\'' && c != '#' && c != '(' && c != ')' && c != '+' && c != ',' && c != '-'
        && c != '.' && c != ':' && c != ';' && c != '<' && c != '@' && c != '[' && c != '\\' && c != ']' && c != '{'
        && c != '}' && !ascii_digit(c));
}

proof fn lemma_digit_run(s: Seq<char>, i: int, q: int)
    requires
        0 <= i <= q <= s.len(),
        forall|j: int| i <= j < q ==> ascii_digit(#[trigger] s[j]),
        q == s.len() || !ascii_digit(s[q]),
    ensures
        digits_end(s, i) == q,
    decreases q - i,
{
    if i < q {
        lemma_digit_run(s, i + 1, q);
    }
}

/// A run of decimal digits followed by whitespace or the end of the input is one
/// number token, an integer whose value is the decimal value of the digits (where it
/// fits in `i32`), which ends where the digits end.
pub proof fn lemma_integer_token(s: Seq<char>, p: int, q: int)
    requires
        0 <= p < q <= s.len(),
        forall|j: int| p <= j < q ==> ascii_digit(#[trigger] s[j]),
        q == s.len() || css_ws(s[q]),
        digits_value(s.subrange(p, q)) <= i32::MAX,
    ensures
        token_after_comments(s, p) == Lexed::Token(
            CssTokenModel::Number(NumberModel::Integer(digits_value(s.subrange(p, q)) as i32)),
            q,
        ),
{
    lemma_digit_run(s, p, q);
    let c = s[p];
    assert(ascii_digit(c));
    assert(!css_ws(c) && c != '"' && c != '\'' && c != '#' && c != '(' && c != ')' && c != '+' && c != ',' && c != '-'
        && c != '.' && c != ':' && c != ';' && c != '<' && c != '@' && c != '[' && c != '\\' && c != ']' && c != '{'
        && c != '}');
    let repr = s.subrange(p, q);
    assert(repr[0] == c);
    assert(number_tail(s, q) == (q, false));
    assert(integer_value(repr) == digits_value(repr));
    lemma_digits_value_nonneg(repr);
}

proof fn lemma_digits_value_nonneg(d: Seq<char>)
    requires
        all_digits(d),
    ensures
        digits_value(d) >= 0,
    decreases d.len(),
{
    if d.len() > 0 {
        lemma_digits_value_nonneg(d.drop_last());
    }
}


/// The first character `c` of a token is none of those that start a token of their
/// own kind or a number: it reaches the last branches of the token reader.
pub open spec fn plain_start(c: char) -> bool {
    !css_ws(c) && c != '"' && c != '\'' && c != '#' && c != '(' && c != ')' && c != '+' && c != ',' && c != '-'
        && c != '.' && c != ':' && c != ';' && c != '<' && c != '@' && c != '[' && c != '\\' && c != ']'
        && c != '{' && c != '}'
}

/// A name that starts with a letter, `_` or a non-ASCII character and runs over name
/// characters, followed by `(`, is one function token holding exactly that name (other
/// than `url`), which ends just after the `(`.
pub proof fn lemma_function_token(s: Seq<char>, p: int, q: int)
    requires
        0 <= p < q < s.len(),
        ident_start(s[p]),
        forall|j: int| p <= j < q ==> ident_char(#[trigger] s[j]),
        s[q] == '(',
        !eq_ignore_ascii_case(s.subrange(p, q), url_word()),
    ensures
        token_after_comments(s, p) == Lexed::Token(CssTokenModel::Function(s.subrange(p, q)), q + 1),
{
    lemma_ident_run(s, p, q);
    assert(plain_start(s[p]) && !ascii_digit(s[p]));
}

/// A run of decimal digits followed by a unit (ASCII letters that do not read as an
/// exponent) is one dimension token: the integer value of the digits, with exactly
/// that unit, ending where the unit ends. Followed by `%` instead, it is one percentage
/// token of that integer, ending just after the `%`.
pub proof fn lemma_dimension_token(s: Seq<char>, p: int, q: int, r: int)
    requires
        0 <= p < q < r <= s.len(),
        forall|j: int| p <= j < q ==> ascii_digit(#[trigger] s[j]),
        forall|j: int| q <= j < r ==> ascii_alpha(#[trigger] s[j]),
        r == s.len() || (!ident_char(s[r]) && s[r] != '\\'),
        (s[q] != 'e' && s[q] != 'E') || r >= q + 2,
        digits_value(s.subrange(p, q)) <= i32::MAX,
    ensures
        token_after_comments(s, p) == Lexed::Token(
            CssTokenModel::Dimension(
                NumberModel::Integer(digits_value(s.subrange(p, q)) as i32),
                s.subrange(q, r),
            ),
            r,
        ),
{
    lemma_digit_run(s, p, q);
    let c = s[p];
    assert(ascii_digit(c) && plain_start(c));
    let repr = s.subrange(p, q);
    assert(repr[0] == c);
    assert(number_tail(s, q) == (q, false));
    assert(integer_value(repr) == digits_value(repr));
    lemma_digits_value_nonneg(repr);
    assert(ident_start(s[q]));
    lemma_ident_run(s, q, r);
}

/// See `lemma_dimension_token`: digits followed by `%`.
pub proof fn lemma_percentage_token(s: Seq<char>, p: int, q: int)
    requires
        0 <= p < q < s.len(),
        forall|j: int| p <= j < q ==> ascii_digit(#[trigger] s[j]),
        s[q] == '%',
        digits_value(s.subrange(p, q)) <= i32::MAX,
    ensures
        token_after_comments(s, p) == Lexed::Token(
            CssTokenModel::Percentage(NumberModel::Integer(digits_value(s.subrange(p, q)) as i32)),
            q + 1,
        ),
{
    lemma_digit_run(s, p, q);
    let c = s[p];
    assert(ascii_digit(c) && plain_start(c));
    let repr = s.subrange(p, q);
    assert(repr[0] == c);
    assert(number_tail(s, q) == (q, false));
    assert(integer_value(repr) == digits_value(repr));
    lemma_digits_value_nonneg(repr);
    assert(!would_start_ident(at(s, q), at(s, q + 1), at(s, q + 2)));
}

/// `#` followed by a name that starts like an identifier is one hash token of the ID
/// type holding exactly that name, which ends where the name ends.
pub proof fn lemma_hash_token(s: Seq<char>, p: int, q: int)
    requires
        0 <= p,
        p + 1 < q <= s.len(),
        s[p] == '#',
        ident_start(s[p + 1]),
        forall|j: int| p + 1 <= j < q ==> ident_char(#[trigger] s[j]),
        q == s.len() || (!ident_char(s[q]) && s[q] != '\\'),
    ensures
        token_after_comments(s, p) == Lexed::Token(CssTokenModel::Hash(s.subrange(p + 1, q), HashType::Id), q),
{
    lemma_ident_run(s, p + 1, q);
}

proof fn lemma_string_run(s: Seq<char>, i: int, q: int, end: char, acc: Seq<char>, p: int)
    requires
        0 <= p <= i <= q < s.len(),
        s[q] == end,
        forall|j: int| p <= j < q ==> (#[trigger] s[j]) != end && s[j] != '\n' && s[j] != '\\',
        acc == s.subrange(p, i),
    ensures
        string_tok(s, i, end, acc) == Some((CssTokenModel::QuotedString(s.subrange(p, q)), q + 1)),
    decreases q - i,
{
    if i < q {
        assert(s.subrange(p, i).push(s[i]) =~= s.subrange(p, i + 1));
        lemma_string_run(s, i + 1, q, end, acc.push(s[i]), p);
    } else {
        assert(acc =~= s.subrange(p, q));
    }
}

/// Text between a pair of the same quotes (`"` or `'`) without that quote, a line feed
/// or a backslash in it is one string token holding exactly that text, which ends just
/// after the closing quote.
pub proof fn lemma_string_token(s: Seq<char>, p: int, q: int)
    requires
        0 <= p < q < s.len(),
        s[p] == '"' || s[p] == '\'',
        s[q] == s[p],
        forall|j: int| p < j < q ==> (#[trigger] s[j]) != s[p] && s[j] != '\n' && s[j] != '\\',
    ensures
        token_after_comments(s, p) == Lexed::Token(CssTokenModel::QuotedString(s.subrange(p + 1, q)), q + 1),
{
    assert(s.subrange(p + 1, p + 1) =~= Seq::<char>::empty());
    lemma_string_run(s, p + 1, q, s[p], Seq::empty(), p + 1);
}
} // verus!
