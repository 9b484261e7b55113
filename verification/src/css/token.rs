//! CSS tokenization: https://www.w3.org/TR/css-syntax-3/#tokenization
use vstd::prelude::*;

use crate::css::tokenization::{
    CssTokenModel, Lexed, Lexing, NumberModel, all_digits, at, comment_end, css_ws,
    digits_end, digits_value, escape, ident_char, ident_like, ident_seq, ident_start, integer_value,
    lemma_digits_value_prefix, lemma_ident_like, lemma_ident_seq, lemma_paired_ws_end, lemma_remnants,
    lemma_skip_comments, lemma_string_tok, lemma_token_progress, lemma_url_body, lemma_ws_end, number,
    number_tail, numeric, paired_ws_end, prefixed, quote, remnants, skip_comments, string_tok,
    token_after_comments, token_at, tokens_from, url_body, url_word, valid_escape, would_start_ident,
    would_start_number, ws_end,
};
use crate::error::Error;
use crate::text::{
    ascii_digit, ascii_lower, chars_of, eq_ignore_ascii_case, is_ascii_alphabetic, is_ascii_digit,
    string_from_chars, string_push, to_ascii_lowercase,
};
use crate::utils::TokenIterator;

verus! {

broadcast use vstd::seq::group_seq_axioms;

/// https://www.w3.org/TR/css-syntax-3/#tokenization
#[derive(Clone, Debug, PartialEq)]
pub enum CssToken {
    Ident(String),
    Function(String),
    AtKeyword(String),
    Hash(String, HashType),
    String(String),
    BadString,
    Url(String),
    BadUrl,
    Delim(char),
    Number(NumericType),
    Percentage(NumericType),
    Dimension(NumericType, String),
    Whitespace,
    Cdo,
    Cdc,
    Colon,
    Semicolon,
    Comma,
    OpenSquareBracket,
    CloseSquareBracket,
    OpenParenthesis,
    CloseParenthesis,
    OpenCurlyBrace,
    CloseCurlyBrace,
    /// The end of the input.
    Eof,
}

/// The type flag of a hash token; the default is unrestricted.
#[derive(Clone, Copy, Debug, PartialEq, Eq, Structural)]
pub enum HashType {
    Id,
    Unrestricted,
}

/// The type flag of a number; the default is integer.
#[derive(Clone, Copy, Debug, PartialEq, Eq, Structural)]
pub enum TypeFlag {
    Integer,
    Number,
}

/// A numeric value: an integer, or the text of a number with a fraction or an
/// exponent (such as `12.5` or `1e3`), which a reader converts to a float.
#[derive(Clone, Debug, PartialEq)]
pub enum NumericType {
    Integer(i32),
    Number(String),
}

impl View for NumericType {
    type V = NumberModel;

    open spec fn view(&self) -> NumberModel {
        match self {
            NumericType::Integer(i) => NumberModel::Integer(*i),
            NumericType::Number(r) => NumberModel::Number(r@),
        }
    }
}

impl View for CssToken {
    type V = CssTokenModel;

    open spec fn view(&self) -> CssTokenModel {
        match self {
            CssToken::Ident(s) => CssTokenModel::Ident(s@),
            CssToken::Function(s) => CssTokenModel::Function(s@),
            CssToken::AtKeyword(s) => CssTokenModel::AtKeyword(s@),
            CssToken::Hash(s, k) => CssTokenModel::Hash(s@, *k),
            CssToken::String(s) => CssTokenModel::QuotedString(s@),
            CssToken::BadString => CssTokenModel::BadString,
            CssToken::Url(s) => CssTokenModel::Url(s@),
            CssToken::BadUrl => CssTokenModel::BadUrl,
            CssToken::Delim(c) => CssTokenModel::Delim(*c),
            CssToken::Number(n) => CssTokenModel::Number(n@),
            CssToken::Percentage(n) => CssTokenModel::Percentage(n@),
            CssToken::Dimension(n, u) => CssTokenModel::Dimension(n@, u@),
            CssToken::Whitespace => CssTokenModel::Whitespace,
            CssToken::Cdo => CssTokenModel::Cdo,
            CssToken::Cdc => CssTokenModel::Cdc,
            CssToken::Colon => CssTokenModel::Colon,
            CssToken::Semicolon => CssTokenModel::Semicolon,
            CssToken::Comma => CssTokenModel::Comma,
            CssToken::OpenSquareBracket => CssTokenModel::OpenSquareBracket,
            CssToken::CloseSquareBracket => CssTokenModel::CloseSquareBracket,
            CssToken::OpenParenthesis => CssTokenModel::OpenParenthesis,
            CssToken::CloseParenthesis => CssTokenModel::CloseParenthesis,
            CssToken::OpenCurlyBrace => CssTokenModel::OpenCurlyBrace,
            CssToken::CloseCurlyBrace => CssTokenModel::CloseCurlyBrace,
            CssToken::Eof => CssTokenModel::Eof,
        }
    }
}

/// The tokens of a list as mathematical values.
pub open spec fn css_tokens_view(v: Seq<CssToken>) -> Seq<CssTokenModel> {
    v.map_values(|t: CssToken| t@)
}

/// `Some(*c)` for `Some(c)`.
pub open spec fn deref_opt(o: Option<&char>) -> Option<char> {
    match o {
        Some(c) => Some(*c),
        None => None,
    }
}

/// Reads CSS text into tokens.
#[derive(Debug)]
pub struct CssTokenizer {
    input: TokenIterator<char>,
}

impl CssTokenizer {
    /// The characters of the CSS text.
    pub closed spec fn chars(&self) -> Seq<char> {
        self.input.items()
    }

    /// The cursor into the characters.
    pub closed spec fn pos(&self) -> int {
        self.input.pos() as int
    }

    /// The cursor stands at most two places past the end, and the text is short enough
    /// that moving the cursor a few places cannot overflow.
    pub open spec fn fits(&self) -> bool {
        self.chars().len() + 8 < usize::MAX && 0 <= self.pos() <= self.chars().len() + 2
    }

    pub fn new(css: &str) -> (t: Self)
        ensures
            t.chars() == css@,
            t.pos() == 0,
    {
        let chars = chars_of(css);
        let input = TokenIterator::new(chars.as_slice());
        proof {
            assert(input.items() =~= css@);
        }
        Self { input }
    }

    /// The character `k` places after the cursor, if there is one.
    fn look(&self, k: usize) -> (r: Option<char>)
        requires
            self.fits(),
            k < 4,
        ensures
            r == at(self.chars(), self.pos() + k),
    {
        let chunk = self.input.peek_chunk(k + 1);
        match chunk[k] {
            Some(c) => Some(*c),
            None => None,
        }
    }

    /// Moves the cursor one place on.
    fn advance(&mut self)
        requires
            old(self).fits(),
        ensures
            final(self).chars() == old(self).chars(),
            final(self).pos() == old(self).pos() + 1,
    {
        self.input.next();
    }

    /// https://www.w3.org/TR/css-syntax-3/#ident-start-code-point
    pub fn is_ident_start_char(c: char) -> (r: bool)
        ensures
            r == ident_start(c),
    {
        is_ascii_alphabetic(c) || c >= '\u{0080}' || c == '_'
    }

    /// https://www.w3.org/TR/css-syntax-3/#ident-code-point
    pub fn is_ident_char(c: char) -> (r: bool)
        ensures
            r == ident_char(c),
    {
        Self::is_ident_start_char(c) || is_ascii_digit(c) || c == '-'
    }

    /// https://w3.org/TR/css-syntax-3/#whitespace
    pub fn is_whitespace(c: char) -> (r: bool)
        ensures
            r == css_ws(c),
    {
        c == '\n' || c == '\t' || c == ' '
    }

    /// Checks if two code points are a valid escape.
    /// https://www.w3.org/TR/css-syntax-3/#check-if-two-code-points-are-a-valid-escape
    pub fn is_valid_escape(chars: &[Option<&char>]) -> (r: bool)
        requires
            chars@.len() >= 2,
        ensures
            r == valid_escape(deref_opt(chars@[0]), deref_opt(chars@[1])),
    {
        let is_backslash = match chars[0] {
            Some(c) => *c == '\\',
            None => false,
        };
        if !is_backslash {
            false
        } else {
            match chars[1] {
                Some(d) => *d != '\n',
                None => true,
            }
        }
    }

    /// Checks if three code points would start an ident sequence.
    /// https://www.w3.org/TR/css-syntax-3/#would-start-an-identifier
    pub fn starts_ident(chars: &[Option<&char>]) -> (r: bool)
        requires
            chars@.len() >= 3,
        ensures
            r == would_start_ident(deref_opt(chars@[0]), deref_opt(chars@[1]), deref_opt(chars@[2])),
    {
        let first = match chars[0] {
            Some(c) => *c,
            None => {
                return false;
            },
        };
        if first == '-' {
            let second_ok = match chars[1] {
                Some(d) => *d == '-' || Self::is_ident_start_char(*d),
                None => false,
            };
            second_ok || Self::is_valid_escape(&[chars[1], chars[2]])
        } else if first == '\\' {
            Self::is_valid_escape(&[chars[0], chars[1]])
        } else {
            Self::is_ident_start_char(first)
        }
    }

    /// Checks if three code points would start a number.
    /// https://www.w3.org/TR/css-syntax-3/#starts-with-a-number
    pub fn starts_number(chars: &[Option<&char>]) -> (r: bool)
        requires
            chars@.len() >= 3,
        ensures
            r == would_start_number(deref_opt(chars@[0]), deref_opt(chars@[1]), deref_opt(chars@[2])),
    {
        let digit1 = match chars[1] {
            Some(d) => is_ascii_digit(*d),
            None => false,
        };
        let dot1 = match chars[1] {
            Some(d) => *d == '.',
            None => false,
        };
        let digit2 = match chars[2] {
            Some(d) => is_ascii_digit(*d),
            None => false,
        };
        match chars[0] {
            Some(c) => {
                if is_ascii_digit(*c) {
                    true
                } else if *c == '+' || *c == '-' {
                    digit1 || (dot1 && digit2)
                } else if *c == '.' {
                    digit1
                } else {
                    false
                }
            },
            None => false,
        }
    }

    /// https://www.w3.org/TR/css-syntax-3/#consume-comment
    #[verifier::loop_isolation(false)]
    pub fn consume_comments(&mut self) -> (r: Result<(), Error>)
        requires
            old(self).fits(),
        ensures
            final(self).chars() == old(self).chars(),
            match skip_comments(old(self).chars(), old(self).pos()) {
                None => r == Err::<(), Error>(Error::UnterminatedComment),
                Some(q) => r is Ok && final(self).pos() == q && final(self).fits(),
            },
    {
        let ghost s = self.chars();
        let ghost p0 = self.pos();
        loop
            invariant
                self.fits(),
                self.chars() == s,
                skip_comments(s, p0) == skip_comments(s, self.pos()),
            decreases s.len() + 2 - self.pos(),
        {
            if !(self.look(0) == Some('/') && self.look(1) == Some('*')) {
                return Ok(());
            }
            let ghost start = self.pos();
            self.advance();
            self.advance();
            let mut consumed_asterisk = false;
            loop
                invariant
                    comment_end(s, start + 2, false) == comment_end(s, self.pos(), consumed_asterisk),
                    self.fits(),
                    self.chars() == s,
                    start <= self.pos() <= s.len(),
                    skip_comments(s, p0) == skip_comments(s, start),
                    at(s, start) == Some('/') && at(s, start + 1) == Some('*'),
                decreases s.len() - self.pos(),
            {
                match self.look(0) {
                    Some(c) => {
                        self.advance();
                        if c == '*' {
                            consumed_asterisk = true;
                        } else if c == '/' && consumed_asterisk {
                            break;
                        } else {
                            consumed_asterisk = false;
                        }
                    },
                    None => {
                        return Err(Error::UnterminatedComment);
                    },
                }
            }
        }
    }
}


/// The integer that `repr`, an optional sign and one or more digits, stands for.
fn integer_of(repr: &Vec<char>) -> (v: i32)
    requires
        repr@.len() > 0,
        ({
            let start: int = if repr@[0] == '+' || repr@[0] == '-' { 1 } else { 0 };
            start < repr@.len() && all_digits(repr@.subrange(start, repr@.len() as int))
        }),
        i32::MIN <= integer_value(repr@) <= i32::MAX,
    ensures
        v == integer_value(repr@),
{
    let negative = repr[0] == '-';
    let start: usize = if repr[0] == '+' || repr[0] == '-' { 1 } else { 0 };
    let ghost d = repr@.subrange(start as int, repr@.len() as int);
    assert(d =~= repr@.drop_first() || start == 0);
    assert(start == 0 ==> d =~= repr@);
    proof {
        lemma_digits_value_prefix(d, d.len() as int);
        assert(d.take(d.len() as int) =~= d);
    }
    let mut mag: i64 = 0;
    let mut k: usize = start;
    while k < repr.len()
        invariant
            start <= k <= repr@.len(),
            d == repr@.subrange(start as int, repr@.len() as int),
            all_digits(d),
            mag == digits_value(d.take(k - start)),
            digits_value(d) <= 0x8000_0000,
        decreases repr.len() - k,
    {
        proof {
            lemma_digits_value_prefix(d, k - start + 1);
            assert(d.take(k - start + 1).drop_last() =~= d.take(k - start));
            assert(d[k - start] == repr@[k as int]);
        }
        let digit = (repr[k] as u32 - '0' as u32) as i64;
        mag = mag * 10 + digit;
        k = k + 1;
    }
    assert(d.take(d.len() as int) =~= d);
    if negative {
        (-mag) as i32
    } else {
        mag as i32
    }
}

impl CssTokenizer {
    /// https://www.w3.org/TR/css-syntax-3/#consume-escaped-code-point
    fn consume_escaped_char(&mut self) -> (r: char)
        requires
            old(self).fits(),
            old(self).pos() <= old(self).chars().len(),
            escape(old(self).chars(), old(self).pos()) is Some,
        ensures
            final(self).chars() == old(self).chars(),
            escape(old(self).chars(), old(self).pos()) == Some((r, final(self).pos())),
            final(self).fits(),
    {
        let c = self.look(0);
        self.advance();
        match c {
            Some(c) => c,
            None => '\u{FFFD}',
        }
    }

    /// https://www.w3.org/TR/css-syntax-3/#consume-name
    #[verifier::loop_isolation(false)]
    fn consume_ident_sequence(&mut self) -> (r: String)
        requires
            old(self).fits(),
            ident_seq(old(self).chars(), old(self).pos()) is Some,
        ensures
            final(self).chars() == old(self).chars(),
            ident_seq(old(self).chars(), old(self).pos()) == Some((r@, final(self).pos())),
            final(self).fits(),
    {
        let ghost s = self.chars();
        let ghost p0 = self.pos();
        let mut result = String::new();
        assert(prefixed(result@, ident_seq(s, p0)) == ident_seq(s, p0)) by {
            if let Some((name, q)) = ident_seq(s, p0) {
                assert(result@ + name =~= name);
            }
        }
        loop
            invariant
                self.fits(),
                self.chars() == s,
                ident_seq(s, p0) == prefixed(result@, ident_seq(s, self.pos())),
                ident_seq(s, self.pos()) is Some,
            decreases s.len() + 2 - self.pos(),
        {
            let c0 = self.look(0);
            let c1 = self.look(1);
            let is_name_char = match c0 {
                Some(c) => Self::is_ident_char(c),
                None => false,
            };
            let ghost before = result@;
            let ghost p = self.pos();
            if is_name_char {
                let c = c0.unwrap();
                self.advance();
                string_push(&mut result, c);
                assert(before + (seq![c] + ident_seq(s, self.pos()).unwrap().0) =~= result@ + ident_seq(s, self.pos()).unwrap().0);
            } else if Self::is_valid_escape(&[c0.as_ref(), c1.as_ref()]) {
                self.advance();
                let e = self.consume_escaped_char();
                string_push(&mut result, e);
                assert(before + (seq![e] + ident_seq(s, self.pos()).unwrap().0) =~= result@ + ident_seq(s, self.pos()).unwrap().0);
            } else {
                assert(ident_seq(s, p) == Some((Seq::<char>::empty(), p)));
                assert(result@ + Seq::<char>::empty() =~= result@);
                return result;
            }
        }
    }

    /// https://www.w3.org/TR/css-syntax-3/#consume-number
    #[verifier::loop_isolation(false)]
    fn consume_number(&mut self) -> (r: NumericType)
        requires
            old(self).fits(),
            old(self).pos() <= old(self).chars().len(),
            number(old(self).chars(), old(self).pos()) is Some,
        ensures
            final(self).chars() == old(self).chars(),
            number(old(self).chars(), old(self).pos()) == Some((r@, final(self).pos())),
            final(self).fits(),
            old(self).pos() <= final(self).pos() <= old(self).chars().len(),
    {
        let ghost s = self.chars();
        let ghost p0 = self.pos();
        let mut repr: Vec<char> = Vec::new();
        let c0 = self.look(0);
        if c0 == Some('+') || c0 == Some('-') {
            repr.push(c0.unwrap());
            self.advance();
        }
        assert(repr@ =~= s.subrange(p0, self.pos()));
        let ghost p1 = self.pos();
        self.take_digits(&mut repr);
        assert(s.subrange(p0, p1) + s.subrange(p1, self.pos()) =~= s.subrange(p0, self.pos()));
        let ghost q = self.pos();
        let mut type_flag = TypeFlag::Integer;
        let ghost before = repr@;
        if self.take_number_tail(&mut repr) {
            type_flag = TypeFlag::Number;
        }
        assert(s.subrange(p0, q) + s.subrange(q, self.pos()) =~= s.subrange(p0, self.pos()));
        assert(number_tail(s, q) == (self.pos(), type_flag == TypeFlag::Number));
        assert(repr@ =~= s.subrange(p0, self.pos()));
        match type_flag {
            TypeFlag::Integer => {
                assert(repr@.subrange(p1 - p0, repr@.len() as int) =~= s.subrange(p1, q));
                proof {
                    assert forall|k: int| 0 <= k < q - p1 implies ascii_digit(#[trigger] s.subrange(p1, q)[k]) by {
                        lemma_digits_run(s, p1, p1 + k);
                    }
                }
                NumericType::Integer(integer_of(&repr))
            },
            TypeFlag::Number => NumericType::Number(string_from_chars(repr.as_slice())),
        }
    }

    /// Appends the fraction and the exponent under the cursor, if any, to `repr`, moves
    /// past them, and tells whether there was either.
    fn take_number_tail(&mut self, repr: &mut Vec<char>) -> (is_number: bool)
        requires
            old(self).fits(),
            old(self).pos() <= old(self).chars().len(),
        ensures
            final(self).chars() == old(self).chars(),
            number_tail(old(self).chars(), old(self).pos()) == (final(self).pos(), is_number),
            final(repr)@ == old(repr)@ + old(self).chars().subrange(old(self).pos(), final(self).pos()),
            final(self).fits(),
            old(self).pos() <= final(self).pos() <= old(self).chars().len(),
    {
        let ghost s = self.chars();
        let ghost p0 = self.pos();
        let ghost r0 = repr@;
        let mut is_number = false;
        let c0 = self.look(0);
        let c1 = self.look(1);
        if c0 == Some('.') && c1.is_some() && is_ascii_digit(c1.unwrap()) {
            repr.push('.');
            self.advance();
            let ghost pf = self.pos();
            self.take_digits(repr);
            assert(s.subrange(p0, pf) + s.subrange(pf, self.pos()) =~= s.subrange(p0, self.pos()));
            is_number = true;
        }
        let ghost q1 = self.pos();
        assert(repr@ =~= r0 + s.subrange(p0, q1));
        let c0 = self.look(0);
        let c1 = self.look(1);
        let c2 = self.look(2);
        let is_e = c0 == Some('E') || c0 == Some('e');
        if is_e && c1.is_some() && is_ascii_digit(c1.unwrap()) {
            repr.push(c0.unwrap());
            self.advance();
            let ghost pe = self.pos();
            self.take_digits(repr);
            assert(s.subrange(q1, pe) + s.subrange(pe, self.pos()) =~= s.subrange(q1, self.pos()));
            assert(s.subrange(p0, q1) + s.subrange(q1, self.pos()) =~= s.subrange(p0, self.pos()));
            is_number = true;
        } else if is_e && (c1 == Some('+') || c1 == Some('-')) && c2.is_some() && is_ascii_digit(c2.unwrap()) {
            repr.push(c0.unwrap());
            self.advance();
            repr.push(c1.unwrap());
            self.advance();
            let ghost pe = self.pos();
            self.take_digits(repr);
            assert(s.subrange(q1, pe) + s.subrange(pe, self.pos()) =~= s.subrange(q1, self.pos()));
            assert(s.subrange(p0, q1) + s.subrange(q1, self.pos()) =~= s.subrange(p0, self.pos()));
            is_number = true;
        }
        is_number
    }

    /// Appends the digits under the cursor to `repr` and moves past them.
    #[verifier::loop_isolation(false)]
    fn take_digits(&mut self, repr: &mut Vec<char>)
        requires
            old(self).fits(),
            old(self).pos() <= old(self).chars().len(),
        ensures
            final(self).chars() == old(self).chars(),
            final(self).pos() == digits_end(old(self).chars(), old(self).pos()),
            final(repr)@ == old(repr)@ + old(self).chars().subrange(old(self).pos(), final(self).pos()),
            final(self).fits(),
            old(self).pos() <= final(self).pos() <= old(self).chars().len(),
    {
        let ghost s = self.chars();
        let ghost p0 = self.pos();
        let ghost r0 = repr@;
        loop
            invariant
                self.fits(),
                self.chars() == s,
                p0 <= self.pos() <= s.len(),
                digits_end(s, p0) == digits_end(s, self.pos()),
                repr@ == r0 + s.subrange(p0, self.pos()),
            decreases s.len() - self.pos(),
        {
            let c = self.look(0);
            if c.is_some() && is_ascii_digit(c.unwrap()) {
                repr.push(c.unwrap());
                self.advance();
                assert(s.subrange(p0, self.pos()) =~= s.subrange(p0, self.pos() - 1).push(c.unwrap()));
            } else {
                return;
            }
        }
    }

    /// https://www.w3.org/TR/css-syntax-3/#consume-numeric-token
    fn consume_numeric_token(&mut self) -> (r: CssToken)
        requires
            old(self).fits(),
            old(self).pos() <= old(self).chars().len(),
            numeric(old(self).chars(), old(self).pos()) is Some,
        ensures
            final(self).chars() == old(self).chars(),
            numeric(old(self).chars(), old(self).pos()) == Some((r@, final(self).pos())),
            final(self).fits(),
    {
        let number = self.consume_number();
        let c0 = self.look(0);
        let c1 = self.look(1);
        let c2 = self.look(2);
        if Self::starts_ident(&[c0.as_ref(), c1.as_ref(), c2.as_ref()]) {
            let unit = self.consume_ident_sequence();
            CssToken::Dimension(number, unit)
        } else if c0 == Some('%') {
            self.advance();
            CssToken::Percentage(number)
        } else {
            CssToken::Number(number)
        }
    }
}

/// Whether `name` is `url` up to ASCII case.
fn is_url_word(name: &str) -> (r: bool)
    ensures
        r == eq_ignore_ascii_case(name@, url_word()),
{
    let v = chars_of(name);
    let r = v.len() == 3 && to_ascii_lowercase(v[0]) == 'u' && to_ascii_lowercase(v[1]) == 'r'
        && to_ascii_lowercase(v[2]) == 'l';
    proof {
        let w = url_word();
        assert(ascii_lower('u') == 'u' && ascii_lower('r') == 'r' && ascii_lower('l') == 'l');
        if v@.len() == 3 {
            assert(w[0] == 'u' && w[1] == 'r' && w[2] == 'l');
            if eq_ignore_ascii_case(name@, w) {
                assert(ascii_lower(name@[0]) == ascii_lower(w[0]));
                assert(ascii_lower(name@[1]) == ascii_lower(w[1]));
                assert(ascii_lower(name@[2]) == ascii_lower(w[2]));
            }
        }
    }
    r
}

impl CssTokenizer {
    /// Moves past the whitespace under the cursor.
    #[verifier::loop_isolation(false)]
    fn skip_whitespace(&mut self)
        requires
            old(self).fits(),
        ensures
            final(self).chars() == old(self).chars(),
            final(self).pos() == ws_end(old(self).chars(), old(self).pos()),
            final(self).fits(),
    {
        let ghost s = self.chars();
        let ghost p0 = self.pos();
        loop
            invariant
                self.fits(),
                self.chars() == s,
                p0 <= self.pos(),
                ws_end(s, p0) == ws_end(s, self.pos()),
            decreases s.len() + 2 - self.pos(),
        {
            let c = self.look(0);
            if c.is_some() && Self::is_whitespace(c.unwrap()) {
                self.advance();
            } else {
                return;
            }
        }
    }

    /// https://www.w3.org/TR/css-syntax-3/#consume-string-token, after the opening quote.
    #[verifier::loop_isolation(false)]
    fn consume_string_token(&mut self, ending_char: char) -> (r: CssToken)
        requires
            old(self).fits(),
            old(self).pos() <= old(self).chars().len(),
            string_tok(old(self).chars(), old(self).pos(), ending_char, Seq::empty()) is Some,
        ensures
            final(self).chars() == old(self).chars(),
            string_tok(old(self).chars(), old(self).pos(), ending_char, Seq::empty()) == Some(
                (r@, final(self).pos()),
            ),
            final(self).fits(),
    {
        let ghost s = self.chars();
        let ghost p0 = self.pos();
        let mut string = String::new();
        proof {
            lemma_string_tok(s, p0, ending_char, Seq::empty());
        }
        loop
            invariant
                self.fits(),
                self.chars() == s,
                self.pos() <= s.len(),
                string_tok(s, p0, ending_char, Seq::empty()) == string_tok(s, self.pos(), ending_char, string@),
                string_tok(s, p0, ending_char, Seq::empty()) is Some,
            decreases s.len() + 2 - self.pos(),
        {
            let ghost p = self.pos();
            proof {
                lemma_string_tok(s, p, ending_char, string@);
            }
            match self.look(0) {
                None => {
                    self.advance();
                    return CssToken::String(string);
                },
                Some(c) => {
                    if c == ending_char {
                        self.advance();
                        return CssToken::String(string);
                    } else if c == '\n' {
                        return CssToken::BadString;
                    } else if c == '\\' {
                        self.advance();
                        match self.look(0) {
                            None => {},
                            Some(d) => {
                                if d == '\n' {
                                    self.advance();
                                } else {
                                    let e = self.consume_escaped_char();
                                    string_push(&mut string, e);
                                }
                            },
                        }
                    } else {
                        self.advance();
                        string_push(&mut string, c);
                    }
                },
            }
        }
    }

    /// https://www.w3.org/TR/css-syntax-3/#consume-remnants-of-bad-url
    #[verifier::loop_isolation(false)]
    fn consume_remnants_of_bad_url(&mut self)
        requires
            old(self).fits(),
            old(self).pos() <= old(self).chars().len() + 1,
            remnants(old(self).chars(), old(self).pos()) is Some,
        ensures
            final(self).chars() == old(self).chars(),
            remnants(old(self).chars(), old(self).pos()) == Some(final(self).pos()),
            final(self).fits(),
    {
        let ghost s = self.chars();
        let ghost p0 = self.pos();
        loop
            invariant
                self.fits(),
                self.chars() == s,
                self.pos() <= s.len() + 1,
                remnants(s, p0) == remnants(s, self.pos()),
                remnants(s, p0) is Some,
            decreases s.len() + 2 - self.pos(),
        {
            proof {
                lemma_remnants(s, self.pos());
            }
            let c0 = self.look(0);
            let c1 = self.look(1);
            match c0 {
                None => {
                    self.advance();
                    return;
                },
                Some(c) => {
                    if c == ')' {
                        self.advance();
                        return;
                    } else if Self::is_valid_escape(&[c0.as_ref(), c1.as_ref()]) {
                        self.advance();
                        self.consume_escaped_char();
                    } else {
                        self.advance();
                    }
                },
            }
        }
    }
}

impl CssTokenizer {
    /// https://www.w3.org/TR/css-syntax-3/#consume-url-token
    #[verifier::loop_isolation(false)]
    fn consume_url_token(&mut self) -> (r: CssToken)
        requires
            old(self).fits(),
            old(self).pos() <= old(self).chars().len(),
            url_body(old(self).chars(), ws_end(old(self).chars(), old(self).pos()), Seq::empty()) is Some,
        ensures
            final(self).chars() == old(self).chars(),
            url_body(old(self).chars(), ws_end(old(self).chars(), old(self).pos()), Seq::empty())
                == Some((r@, final(self).pos())),
            final(self).fits(),
    {
        let ghost s = self.chars();
        proof {
            lemma_ws_end(s, self.pos());
        }
        self.skip_whitespace();
        let ghost p0 = self.pos();
        let mut url = String::new();
        loop
            invariant
                self.fits(),
                self.chars() == s,
                self.pos() <= s.len() + 1,
                url_body(s, p0, Seq::empty()) == url_body(s, self.pos(), url@),
                url_body(s, p0, Seq::empty()) is Some,
            decreases s.len() + 2 - self.pos(),
        {
            proof {
                lemma_url_body(s, self.pos(), url@);
            }
            let c0 = self.look(0);
            let c1 = self.look(1);
            match c0 {
                None => {
                    self.advance();
                    return CssToken::Url(url);
                },
                Some(c) => {
                    if c == ')' {
                        self.advance();
                        return CssToken::Url(url);
                    } else if c == '"' || c == '\'' || c == '(' || c <= '\u{0008}' || c == '\u{000B}' || ('\u{000E}' <= c
                        && c <= '\u{001F}') || c == '\u{007F}' {
                        self.advance();
                        self.consume_remnants_of_bad_url();
                        return CssToken::BadUrl;
                    } else if c == '\\' {
                        self.advance();
                        if Self::is_valid_escape(&[c0.as_ref(), c1.as_ref()]) {
                            let e = self.consume_escaped_char();
                            string_push(&mut url, e);
                        } else {
                            self.consume_remnants_of_bad_url();
                            return CssToken::BadUrl;
                        }
                    } else if Self::is_whitespace(c) {
                        self.advance();
                        proof {
                            lemma_ws_end(s, self.pos());
                        }
                        self.skip_whitespace();
                        let d = self.look(0);
                        if d == Some(')') || d.is_none() {
                            self.advance();
                            return CssToken::Url(url);
                        }
                        self.consume_remnants_of_bad_url();
                        return CssToken::BadUrl;
                    } else {
                        self.advance();
                        string_push(&mut url, c);
                    }
                },
            }
        }
    }

    /// https://www.w3.org/TR/css-syntax-3/#consume-ident-like-token
    fn consume_ident_like_sequence(&mut self) -> (r: CssToken)
        requires
            old(self).fits(),
            old(self).pos() <= old(self).chars().len(),
            ident_like(old(self).chars(), old(self).pos()) is Some,
        ensures
            final(self).chars() == old(self).chars(),
            ident_like(old(self).chars(), old(self).pos()) == Some((r@, final(self).pos())),
            final(self).fits(),
    {
        let ghost s = self.chars();
        proof {
            lemma_ident_seq(s, self.pos());
        }
        let string = self.consume_ident_sequence();
        let next = self.look(0);
        if is_url_word(string.as_str()) && next == Some('(') {
            self.advance();
            let ghost q1 = self.pos();
            proof {
                lemma_paired_ws_end(s, q1);
            }
            self.skip_whitespace_pairs();
            let c0 = self.look(0);
            let c1 = self.look(1);
            let quote0 = c0 == Some('"') || c0 == Some('\'');
            let quote1 = c1 == Some('"') || c1 == Some('\'');
            if quote0 || (c0 == Some(' ') && quote1) {
                CssToken::Function(string)
            } else {
                self.consume_url_token()
            }
        } else if next == Some('(') {
            self.advance();
            CssToken::Function(string)
        } else {
            CssToken::Ident(string)
        }
    }

    /// Moves past whitespace for as long as the next two characters are whitespace.
    #[verifier::loop_isolation(false)]
    fn skip_whitespace_pairs(&mut self)
        requires
            old(self).fits(),
        ensures
            final(self).chars() == old(self).chars(),
            final(self).pos() == paired_ws_end(old(self).chars(), old(self).pos()),
            final(self).fits(),
    {
        let ghost s = self.chars();
        let ghost p0 = self.pos();
        loop
            invariant
                self.fits(),
                self.chars() == s,
                p0 <= self.pos(),
                paired_ws_end(s, p0) == paired_ws_end(s, self.pos()),
            decreases s.len() + 2 - self.pos(),
        {
            let c0 = self.look(0);
            let c1 = self.look(1);
            if c0.is_some() && c1.is_some() && Self::is_whitespace(c0.unwrap()) && Self::is_whitespace(c1.unwrap()) {
                self.advance();
            } else {
                return;
            }
        }
    }
}

impl CssTokenizer {
    /// https://www.w3.org/TR/css-syntax-3/#tokenization
    #[verifier::loop_isolation(false)]
    pub fn tokenize(&mut self) -> (r: Result<Vec<CssToken>, Error>)
        requires
            old(self).fits(),
            !(tokens_from(old(self).chars(), old(self).pos()) is Unsupported),
        ensures
            final(self).chars() == old(self).chars(),
            match tokens_from(old(self).chars(), old(self).pos()) {
                Lexing::Tokens(ts) => r is Ok && css_tokens_view(r->Ok_0@) == ts,
                Lexing::UnterminatedComment => r == Err::<Vec<CssToken>, Error>(Error::UnterminatedComment),
                Lexing::Unsupported => false,
            },
    {
        let ghost s = self.chars();
        let ghost p0 = self.pos();
        let mut tokens: Vec<CssToken> = Vec::new();
        loop
            invariant
                self.fits(),
                self.chars() == s,
                !(tokens_from(s, self.pos()) is Unsupported),
                match tokens_from(s, p0) {
                    Lexing::Tokens(ts) => tokens_from(s, self.pos()) matches Lexing::Tokens(rest) && ts
                        == css_tokens_view(tokens@) + rest,
                    other => tokens_from(s, self.pos()) == other,
                },
            decreases s.len() + 3 - self.pos(),
        {
            let ghost p = self.pos();
            proof {
                lemma_token_progress(s, p);
            }
            let token = match self.consume_token() {
                Ok(t) => t,
                Err(e) => {
                    return Err(e);
                },
            };
            let is_eof = match token {
                CssToken::Eof => true,
                _ => false,
            };
            let ghost before = tokens@;
            tokens.push(token);
            assert(css_tokens_view(tokens@) =~= css_tokens_view(before).push(token@));
            if is_eof {
                return Ok(tokens);
            }
        }
    }

    /// https://www.w3.org/TR/css-syntax-3/#consume-token
    fn consume_token(&mut self) -> (r: Result<CssToken, Error>)
        requires
            old(self).fits(),
            !(token_at(old(self).chars(), old(self).pos()) is Unsupported),
        ensures
            final(self).chars() == old(self).chars(),
            match token_at(old(self).chars(), old(self).pos()) {
                Lexed::Token(t, q) => r is Ok && r->Ok_0@ == t && final(self).pos() == q && (t is Eof
                    || final(self).fits()),
                Lexed::UnterminatedComment => r == Err::<CssToken, Error>(Error::UnterminatedComment),
                Lexed::Unsupported => false,
            },
    {
        let ghost s = self.chars();
        proof {
            lemma_skip_comments(s, self.pos());
        }
        match self.consume_comments() {
            Ok(()) => {},
            Err(e) => {
                return Err(e);
            },
        }
        Ok(self.consume_token_after_comments())
    }

    /// The token under the cursor, where no comment starts.
    #[verifier::spinoff_prover]
    #[verifier::rlimit(40)]
    fn consume_token_after_comments(&mut self) -> (r: CssToken)
        requires
            old(self).fits(),
            token_after_comments(old(self).chars(), old(self).pos()) is Token,
        ensures
            final(self).chars() == old(self).chars(),
            token_after_comments(old(self).chars(), old(self).pos()) == Lexed::Token(r@, final(self).pos()),
            r is Eof || final(self).fits(),
    {
        let ghost s = self.chars();
        let ghost p = self.pos();
        let c = match self.look(0) {
            Some(c) => c,
            None => {
                self.advance();
                return CssToken::Eof;
            },
        };
        self.advance();
        let n0 = self.look(0);
        let n1 = self.look(1);
        let n2 = self.look(2);
        if Self::is_whitespace(c) {
            proof {
                lemma_ws_end(s, p + 1);
            }
            self.skip_whitespace();
            CssToken::Whitespace
        } else if c == '"' || c == '\'' {
            self.consume_string_token(c)
        } else if c == '#' {
            if n0.is_some() && Self::is_ident_char(n0.unwrap()) {
                let type_flag = if Self::starts_ident(&[n0.as_ref(), n1.as_ref(), n2.as_ref()]) {
                    HashType::Id
                } else {
                    HashType::Unrestricted
                };
                proof {
                    lemma_ident_seq(s, p + 1);
                }
                CssToken::Hash(self.consume_ident_sequence(), type_flag)
            } else {
                CssToken::Delim(c)
            }
        } else if c == '(' {
            CssToken::OpenParenthesis
        } else if c == ')' {
            CssToken::CloseParenthesis
        } else if c == '+' {
            if Self::starts_number(&[Some(&c), n0.as_ref(), n1.as_ref()]) {
                self.input.rewind(1);
                self.consume_numeric_token()
            } else {
                CssToken::Delim(c)
            }
        } else if c == ',' {
            CssToken::Comma
        } else if c == '-' {
            if Self::starts_number(&[Some(&c), n0.as_ref(), n1.as_ref()]) {
                self.input.rewind(1);
                self.consume_numeric_token()
            } else if n0 == Some('-') && n1 == Some('>') {
                self.advance();
                self.advance();
                CssToken::Cdc
            } else if Self::starts_ident(&[Some(&c), n0.as_ref(), n1.as_ref()]) {
                self.input.rewind(1);
                self.consume_ident_like_sequence()
            } else {
                CssToken::Delim(c)
            }
        } else if c == '.' {
            if Self::starts_number(&[Some(&c), n0.as_ref(), n1.as_ref()]) {
                self.input.rewind(1);
                self.consume_numeric_token()
            } else {
                CssToken::Delim(c)
            }
        } else if c == ':' {
            CssToken::Colon
        } else if c == ';' {
            CssToken::Semicolon
        } else if c == '<' {
            if n0 == Some('!') && n1 == Some('-') && n2 == Some('-') {
                self.advance();
                self.advance();
                self.advance();
                CssToken::Cdo
            } else {
                CssToken::Delim(c)
            }
        } else if c == '@' {
            if Self::starts_ident(&[n0.as_ref(), n1.as_ref(), n2.as_ref()]) {
                proof {
                    lemma_ident_seq(s, p + 1);
                }
                CssToken::AtKeyword(self.consume_ident_sequence())
            } else {
                CssToken::Delim(c)
            }
        } else if c == '[' {
            CssToken::OpenSquareBracket
        } else if c == '\\' {
            if Self::is_valid_escape(&[Some(&c), n0.as_ref()]) {
                self.input.rewind(1);
                proof {
                    lemma_ident_like(s, p);
                }
                self.consume_ident_like_sequence()
            } else {
                CssToken::Delim(c)
            }
        } else if c == ']' {
            CssToken::CloseSquareBracket
        } else if c == '{' {
            CssToken::OpenCurlyBrace
        } else if c == '}' {
            CssToken::CloseCurlyBrace
        } else if is_ascii_digit(c) {
            self.input.rewind(1);
            self.consume_numeric_token()
        } else if Self::is_ident_start_char(c) {
            self.input.rewind(1);
            self.consume_ident_like_sequence()
        } else {
            CssToken::Delim(c)
        }
    }
}

/// The characters from `p` up to where the run of digits at `p` ends are digits.
proof fn lemma_digits_run(s: Seq<char>, p: int, j: int)
    requires
        0 <= p <= j < digits_end(s, p),
    ensures
        ascii_digit(s[j]),
    decreases j - p,
{
    if j > p {
        lemma_digits_run(s, p + 1, j);
    }
}
} // verus!
