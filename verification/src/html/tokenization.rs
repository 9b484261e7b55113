//! The abstract model of HTML tokenization: one step of the tokenizer state
//! machine, when a step is defined (the tokenizers stop on the inputs they do
//! not support), and the run of steps that one call for a token makes.
use vstd::prelude::*;

use crate::html::token::TokenizationState;
use crate::text::{ascii, ascii_alpha, ascii_lower, ascii_upper, eq_ignore_ascii_case, uppercase};

verus! {

broadcast use vstd::seq::group_seq_axioms;

/// A token as a mathematical value.
#[verifier::ext_equal]
pub enum TokenModel {
    Doctype {
        name: Option<Seq<char>>,
        public_identifier: Option<Seq<char>>,
        system_identifier: Option<Seq<char>>,
        force_quirks: bool,
    },
    StartTag { tag_name: Seq<char>, attributes: Seq<(Seq<char>, Seq<char>)>, self_closing: bool },
    EndTag { tag_name: Seq<char>, attributes: Seq<(Seq<char>, Seq<char>)>, self_closing: bool },
    Comment(Seq<char>),
    Character(char),
    Eof,
}

/// The state of a tokenizer as a mathematical value: the state of the state
/// machine, the token under construction, the input and the cursor into it,
/// the tokens emitted and not yet handed out, and the temporary buffer.
#[verifier::ext_equal]
pub struct TokenizerModel {
    pub state: TokenizationState,
    pub current: Option<TokenModel>,
    pub input: Seq<char>,
    pub pos: nat,
    pub output: Seq<TokenModel>,
    pub temp_buf: Seq<char>,
}

/// Tab, line feed, form feed and space.
pub open spec fn html_ws(c: char) -> bool {
    c == '\t' || c == '\n' || c == '\u{000C}' || c == ' '
}

pub open spec fn empty_start_tag() -> TokenModel {
    TokenModel::StartTag { tag_name: Seq::empty(), attributes: Seq::empty(), self_closing: false }
}

pub open spec fn empty_end_tag() -> TokenModel {
    TokenModel::EndTag { tag_name: Seq::empty(), attributes: Seq::empty(), self_closing: false }
}

pub open spec fn empty_comment() -> TokenModel {
    TokenModel::Comment(Seq::empty())
}

pub open spec fn doctype(name: Option<Seq<char>>, force_quirks: bool) -> TokenModel {
    TokenModel::Doctype {
        name,
        public_identifier: None,
        system_identifier: None,
        force_quirks,
    }
}

/// Whether `t` is a start or end tag.
pub open spec fn is_tag(t: Option<TokenModel>) -> bool {
    match t {
        Some(TokenModel::StartTag { .. }) | Some(TokenModel::EndTag { .. }) => true,
        _ => false,
    }
}

/// Whether `t` is a start or end tag that has at least one attribute.
pub open spec fn tag_has_attr(t: Option<TokenModel>) -> bool {
    match t {
        Some(TokenModel::StartTag { attributes, .. }) | Some(TokenModel::EndTag { attributes, .. }) => attributes.len() > 0,
        _ => false,
    }
}

/// Appends `c` to the tag name of a start or end tag; other tokens are unchanged.
pub open spec fn push_tag_name(t: Option<TokenModel>, c: char) -> Option<TokenModel> {
    match t {
        Some(TokenModel::StartTag { tag_name, attributes, self_closing }) => Some(
            TokenModel::StartTag { tag_name: tag_name.push(c), attributes, self_closing },
        ),
        Some(TokenModel::EndTag { tag_name, attributes, self_closing }) => Some(
            TokenModel::EndTag { tag_name: tag_name.push(c), attributes, self_closing },
        ),
        _ => t,
    }
}

/// Appends `c` to the tag name of an end tag; other tokens are unchanged.
pub open spec fn push_end_tag_name(t: Option<TokenModel>, c: char) -> Option<TokenModel> {
    match t {
        Some(TokenModel::EndTag { tag_name, attributes, self_closing }) => Some(
            TokenModel::EndTag { tag_name: tag_name.push(c), attributes, self_closing },
        ),
        _ => t,
    }
}

/// Starts a new attribute `(name, value)` on a start or end tag.
pub open spec fn add_attr(t: Option<TokenModel>, name: Seq<char>, value: Seq<char>) -> Option<TokenModel> {
    match t {
        Some(TokenModel::StartTag { tag_name, attributes, self_closing }) => Some(
            TokenModel::StartTag { tag_name, attributes: attributes.push((name, value)), self_closing },
        ),
        Some(TokenModel::EndTag { tag_name, attributes, self_closing }) => Some(
            TokenModel::EndTag { tag_name, attributes: attributes.push((name, value)), self_closing },
        ),
        _ => t,
    }
}

pub open spec fn push_last_name(a: Seq<(Seq<char>, Seq<char>)>, c: char) -> Seq<(Seq<char>, Seq<char>)> {
    a.update(a.len() - 1, (a.last().0.push(c), a.last().1))
}

pub open spec fn push_last_value(a: Seq<(Seq<char>, Seq<char>)>, c: char) -> Seq<(Seq<char>, Seq<char>)> {
    a.update(a.len() - 1, (a.last().0, a.last().1.push(c)))
}

/// Appends `c` to the name of the last attribute of a start or end tag.
pub open spec fn push_attr_name(t: Option<TokenModel>, c: char) -> Option<TokenModel> {
    match t {
        Some(TokenModel::StartTag { tag_name, attributes, self_closing }) => Some(
            TokenModel::StartTag { tag_name, attributes: push_last_name(attributes, c), self_closing },
        ),
        Some(TokenModel::EndTag { tag_name, attributes, self_closing }) => Some(
            TokenModel::EndTag { tag_name, attributes: push_last_name(attributes, c), self_closing },
        ),
        _ => t,
    }
}

/// Appends `c` to the value of the last attribute of a start or end tag.
pub open spec fn push_attr_value(t: Option<TokenModel>, c: char) -> Option<TokenModel> {
    match t {
        Some(TokenModel::StartTag { tag_name, attributes, self_closing }) => Some(
            TokenModel::StartTag { tag_name, attributes: push_last_value(attributes, c), self_closing },
        ),
        Some(TokenModel::EndTag { tag_name, attributes, self_closing }) => Some(
            TokenModel::EndTag { tag_name, attributes: push_last_value(attributes, c), self_closing },
        ),
        _ => t,
    }
}

/// Sets the self-closing flag of a start or end tag.
pub open spec fn set_self_closing(t: Option<TokenModel>) -> Option<TokenModel> {
    match t {
        Some(TokenModel::StartTag { tag_name, attributes, .. }) => Some(
            TokenModel::StartTag { tag_name, attributes, self_closing: true },
        ),
        Some(TokenModel::EndTag { tag_name, attributes, .. }) => Some(
            TokenModel::EndTag { tag_name, attributes, self_closing: true },
        ),
        _ => t,
    }
}

/// Appends `s` to the data of a comment.
pub open spec fn push_comment(t: Option<TokenModel>, s: Seq<char>) -> Option<TokenModel> {
    match t {
        Some(TokenModel::Comment(d)) => Some(TokenModel::Comment(d + s)),
        _ => t,
    }
}

/// Appends `c` to the name of a DOCTYPE token whose name is present.
pub open spec fn push_doctype_name(t: Option<TokenModel>, c: char) -> Option<TokenModel> {
    match t {
        Some(TokenModel::Doctype { name: Some(n), public_identifier, system_identifier, force_quirks }) => Some(
            TokenModel::Doctype { name: Some(n.push(c)), public_identifier, system_identifier, force_quirks },
        ),
        _ => t,
    }
}

/// Turns on the force-quirks flag of a DOCTYPE token.
pub open spec fn set_force_quirks(t: Option<TokenModel>) -> Option<TokenModel> {
    match t {
        Some(TokenModel::Doctype { name, public_identifier, system_identifier, .. }) => Some(
            TokenModel::Doctype { name, public_identifier, system_identifier, force_quirks: true },
        ),
        _ => t,
    }
}

/// How a tokenizer recognises `--`, `DOCTYPE` and `[CDATA[` after `<!`.
pub enum MarkupMatch {
    /// All three compared up to ASCII case.
    IgnoreAsciiCase,
    /// `--` and `[CDATA[` compared exactly, `DOCTYPE` against the upper-case form of the input.
    UpperCased,
}

/// The characters from `pos` on, `k` of them, if the input holds that many.
pub open spec fn ahead(m: TokenizerModel, k: nat) -> Option<Seq<char>> {
    if m.pos + k <= m.input.len() {
        Some(m.input.subrange(m.pos as int, (m.pos + k) as int))
    } else {
        None
    }
}

/// Whether the next `t.len()` characters are `t` up to ASCII case.
pub open spec fn ahead_is(m: TokenizerModel, t: Seq<char>) -> bool {
    match ahead(m, t.len()) {
        Some(s) => eq_ignore_ascii_case(s, t),
        None => false,
    }
}

/// Whether the next `t.len()` characters are exactly `t`.
pub open spec fn ahead_is_exactly(m: TokenizerModel, t: Seq<char>) -> bool {
    match ahead(m, t.len()) {
        Some(s) => s == t,
        None => false,
    }
}

pub open spec fn dashes() -> Seq<char> {
    seq!['-', '-']
}

pub open spec fn doctype_word() -> Seq<char> {
    seq!['D', 'O', 'C', 'T', 'Y', 'P', 'E']
}

pub open spec fn cdata_word() -> Seq<char> {
    seq!['[', 'C', 'D', 'A', 'T', 'A', '[']
}

impl TokenizerModel {
    /// The character under the cursor, if any.
    pub open spec fn cur(self) -> Option<char> {
        if self.pos < self.input.len() {
            Some(self.input[self.pos as int])
        } else {
            None
        }
    }

    /// The cursor moved one character on (reading a character moves it, also at the end).
    pub open spec fn adv(self) -> Self {
        TokenizerModel { pos: self.pos + 1, ..self }
    }

    pub open spec fn with_pos(self, p: nat) -> Self {
        TokenizerModel { pos: p, ..self }
    }

    pub open spec fn with_output(self, o: Seq<TokenModel>) -> Self {
        TokenizerModel { output: o, ..self }
    }

    pub open spec fn to(self, s: TokenizationState) -> Self {
        TokenizerModel { state: s, ..self }
    }

    pub open spec fn emit(self, t: TokenModel) -> Self {
        TokenizerModel { output: self.output.push(t), ..self }
    }

    pub open spec fn set_cur(self, t: Option<TokenModel>) -> Self {
        TokenizerModel { current: t, ..self }
    }

    /// The current token emitted (it must be present).
    pub open spec fn emit_cur(self) -> Self {
        self.emit(self.current.unwrap())
    }
}

/// The character token of `c`.
pub open spec fn char_token(c: char) -> TokenModel {
    TokenModel::Character(c)
}

/// The characters of `s`, each as a character token.
pub open spec fn char_tokens(s: Seq<char>) -> Seq<TokenModel> {
    s.map_values(|c: char| char_token(c))
}

/// One step of the state machine: what the tokenizer does in `m.state` with
/// the character under the cursor, when that step is defined (see `step_ok`).
pub open spec fn step(m: TokenizerModel, mm: MarkupMatch) -> TokenizerModel {
    let c = m.cur();
    let n = m.adv();
    match m.state {
        TokenizationState::Data => match c {
            Some(c) => if c == '<' {
                n.to(TokenizationState::TagOpen)
            } else if c == '\0' {
                n.emit(TokenModel::Character('\u{FFFD}'))
            } else {
                n.emit(TokenModel::Character(c))
            },
            None => n.emit(TokenModel::Eof),
        },
        TokenizationState::RawText => match c {
            Some(c) => if c == '<' {
                n.to(TokenizationState::RawTextLessThanSign)
            } else if c == '\0' {
                n.emit(TokenModel::Character('\u{FFFD}'))
            } else {
                n.emit(TokenModel::Character(c))
            },
            None => n.emit(TokenModel::Eof),
        },
        TokenizationState::TagOpen => match c {
            Some(c) => if c == '!' {
                n.to(TokenizationState::MarkupDeclarationOpen)
            } else if c == '/' {
                n.to(TokenizationState::EndTagOpen)
            } else if ascii_alpha(c) {
                m.set_cur(Some(empty_start_tag())).to(TokenizationState::TagName)
            } else {
                m.to(TokenizationState::Data).emit(TokenModel::Character('<'))
            },
            None => n.emit(TokenModel::Character('<')).emit(TokenModel::Eof),
        },
        TokenizationState::EndTagOpen => match c {
            Some(c) => if ascii_alpha(c) {
                m.set_cur(Some(empty_end_tag())).to(TokenizationState::TagName)
            } else if c == '>' {
                n.to(TokenizationState::Data)
            } else {
                m.set_cur(Some(empty_comment())).to(TokenizationState::BogusComment)
            },
            None => n.emit(TokenModel::Character('<')).emit(TokenModel::Character('/')).emit(
                TokenModel::Eof,
            ),
        },
        TokenizationState::TagName => match c {
            Some(c) => if html_ws(c) {
                n.to(TokenizationState::BeforeAttributeName)
            } else if c == '/' {
                n.to(TokenizationState::SelfClosingStartTag)
            } else if c == '>' {
                n.to(TokenizationState::Data).emit_cur()
            } else if ascii_upper(c) {
                n.set_cur(push_tag_name(m.current, ascii_lower(c)))
            } else if c == '\0' {
                n.set_cur(push_tag_name(m.current, '\u{FFFD}'))
            } else {
                n.set_cur(push_tag_name(m.current, c))
            },
            None => n.emit(TokenModel::Eof),
        },
        TokenizationState::RawTextLessThanSign => match c {
            Some(c) => if c == '/' {
                TokenizerModel { temp_buf: Seq::empty(), ..n }.to(
                    TokenizationState::RawTextEndTagOpen,
                )
            } else {
                m.emit(TokenModel::Character('<')).to(TokenizationState::RawText)
            },
            None => m.emit(TokenModel::Character('<')).to(TokenizationState::RawText),
        },
        TokenizationState::RawTextEndTagOpen => match c {
            Some(c) => if ascii_alpha(c) {
                m.set_cur(Some(empty_end_tag())).to(TokenizationState::RawTextEndTagName)
            } else {
                m.emit(TokenModel::Character('<')).emit(TokenModel::Character('/')).to(
                    TokenizationState::RawText,
                )
            },
            None => m.emit(TokenModel::Character('<')).emit(TokenModel::Character('/')).to(
                TokenizationState::RawText,
            ),
        },
        TokenizationState::RawTextEndTagName => match c {
            Some(c) => if html_ws(c) {
                n.to(TokenizationState::BeforeAttributeName)
            } else if c == '/' {
                n.to(TokenizationState::SelfClosingStartTag)
            } else if c == '>' {
                n.to(TokenizationState::Data).emit_cur()
            } else if ascii(c) {
                TokenizerModel {
                    current: push_end_tag_name(m.current, ascii_lower(c)),
                    temp_buf: m.temp_buf.push(c),
                    ..n
                }
            } else {
                TokenizerModel {
                    output: m.output + seq![TokenModel::Character('<'), TokenModel::Character('/')]
                        + char_tokens(m.temp_buf),
                    ..m
                }.to(TokenizationState::RawText)
            },
            None => TokenizerModel {
                output: m.output + seq![TokenModel::Character('<'), TokenModel::Character('/')]
                    + char_tokens(m.temp_buf),
                ..m
            }.to(TokenizationState::RawText),
        },
        TokenizationState::BeforeAttributeName => match c {
            Some(c) => if html_ws(c) {
                n
            } else if c == '/' || c == '>' {
                m.to(TokenizationState::AfterAttributeName)
            } else if c == '=' {
                n.set_cur(add_attr(m.current, seq!['='], Seq::empty()))
            } else {
                m.set_cur(add_attr(m.current, Seq::empty(), Seq::empty())).to(
                    TokenizationState::AttributeName,
                )
            },
            None => m.to(TokenizationState::AfterAttributeName),
        },
        TokenizationState::AttributeName => match c {
            Some(c) => if html_ws(c) || c == '/' || c == '>' {
                m.to(TokenizationState::AfterAttributeName)
            } else if c == '=' {
                n.to(TokenizationState::BeforeAttributeValue)
            } else if ascii_upper(c) {
                n.set_cur(push_attr_name(m.current, ascii_lower(c)))
            } else if c == '\0' {
                n.set_cur(push_attr_name(m.current, '\u{FFFD}'))
            } else {
                n.set_cur(push_attr_name(m.current, c))
            },
            None => m.to(TokenizationState::AfterAttributeName),
        },
        TokenizationState::AfterAttributeName => match c {
            Some(c) => if html_ws(c) {
                n
            } else if c == '/' {
                n.to(TokenizationState::SelfClosingStartTag)
            } else if c == '=' {
                n.to(TokenizationState::BeforeAttributeValue)
            } else if c == '>' {
                n.to(TokenizationState::Data).emit_cur()
            } else {
                m.set_cur(add_attr(m.current, Seq::empty(), Seq::empty())).to(
                    TokenizationState::AttributeName,
                )
            },
            None => n.emit(TokenModel::Eof),
        },
        TokenizationState::BeforeAttributeValue => match c {
            Some(c) => if html_ws(c) {
                n
            } else if c == '"' {
                n.to(TokenizationState::AttributeValueDoubleQuoted)
            } else if c == '\'' {
                n.to(TokenizationState::AttributeValueSingleQuoted)
            } else if c == '>' {
                n.to(TokenizationState::Data).emit_cur()
            } else {
                m.to(TokenizationState::AttributeValueUnquoted)
            },
            None => m.to(TokenizationState::AttributeValueUnquoted),
        },
        TokenizationState::AttributeValueDoubleQuoted => match c {
            Some(c) => if c == '"' {
                n.to(TokenizationState::AfterAttributeValueQuoted)
            } else if c == '\0' {
                n.set_cur(push_attr_value(m.current, '\u{FFFD}'))
            } else {
                n.set_cur(push_attr_value(m.current, c))
            },
            None => n.emit(TokenModel::Eof),
        },
        TokenizationState::AttributeValueSingleQuoted => match c {
            Some(c) => if c == '\'' {
                n.to(TokenizationState::AfterAttributeValueQuoted)
            } else if c == '\0' {
                n.set_cur(push_attr_value(m.current, '\u{FFFD}'))
            } else {
                n.set_cur(push_attr_value(m.current, c))
            },
            None => n.emit(TokenModel::Eof),
        },
        TokenizationState::AttributeValueUnquoted => match c {
            Some(c) => if html_ws(c) {
                n.to(TokenizationState::BeforeAttributeName)
            } else if c == '>' {
                n.to(TokenizationState::Data).emit_cur()
            } else if c == '\0' {
                n.set_cur(push_attr_value(m.current, '\u{FFFD}'))
            } else {
                n.set_cur(push_attr_value(m.current, c))
            },
            None => n.emit(TokenModel::Eof),
        },
        TokenizationState::AfterAttributeValueQuoted => match c {
            Some(c) => if html_ws(c) {
                n.to(TokenizationState::BeforeAttributeName)
            } else if c == '/' {
                n.to(TokenizationState::SelfClosingStartTag)
            } else if c == '>' {
                n.to(TokenizationState::Data).emit_cur()
            } else {
                m.to(TokenizationState::BeforeAttributeName)
            },
            None => n.emit(TokenModel::Eof),
        },
        TokenizationState::SelfClosingStartTag => match c {
            Some(c) => if c == '>' {
                n.set_cur(set_self_closing(m.current)).to(TokenizationState::Data).emit_cur()
            } else {
                m.to(TokenizationState::BeforeAttributeName)
            },
            None => n.emit(TokenModel::Eof),
        },
        TokenizationState::BogusComment => match c {
            Some(c) => if c == '>' {
                n.to(TokenizationState::Data).emit_cur()
            } else if c == '\0' {
                n.set_cur(push_comment(m.current, seq!['\u{FFFD}']))
            } else {
                n.set_cur(push_comment(m.current, seq![c]))
            },
            None => n.emit_cur().emit(TokenModel::Eof),
        },
        TokenizationState::MarkupDeclarationOpen => if ahead_is(m, dashes()) {
            TokenizerModel { pos: m.pos + 2, ..m }.set_cur(Some(empty_comment())).to(
                TokenizationState::CommentStart,
            )
        } else if markup_doctype(m, mm) {
            TokenizerModel { pos: m.pos + 7, ..m }.to(TokenizationState::Doctype)
        } else {
            m.set_cur(Some(empty_comment())).to(TokenizationState::BogusComment)
        },
        TokenizationState::CommentStart => match c {
            Some(c) => if c == '-' {
                n.to(TokenizationState::CommentStartDash)
            } else if c == '>' {
                n.to(TokenizationState::Data).emit_cur()
            } else {
                m.to(TokenizationState::Comment)
            },
            None => m.to(TokenizationState::Comment),
        },
        TokenizationState::CommentStartDash => match c {
            Some(c) => if c == '-' {
                n.to(TokenizationState::CommentEnd)
            } else if c == '>' {
                n.to(TokenizationState::Data).emit_cur()
            } else {
                m.set_cur(push_comment(m.current, seq!['-'])).to(TokenizationState::Comment)
            },
            None => n.emit_cur().emit(TokenModel::Eof),
        },
        TokenizationState::Comment => match c {
            Some(c) => if c == '-' {
                n.to(TokenizationState::CommentEndDash)
            } else if c == '\0' {
                n.set_cur(push_comment(m.current, seq!['\u{FFFD}']))
            } else {
                n.set_cur(push_comment(m.current, seq![c]))
            },
            None => n.emit_cur().emit(TokenModel::Eof),
        },
        TokenizationState::CommentEndDash => match c {
            Some(c) => if c == '-' {
                n.to(TokenizationState::CommentEnd)
            } else {
                m.set_cur(push_comment(m.current, seq!['-'])).to(TokenizationState::Comment)
            },
            None => n.emit_cur().emit(TokenModel::Eof),
        },
        TokenizationState::CommentEnd => match c {
            Some(c) => if c == '>' {
                n.to(TokenizationState::Data).emit_cur()
            } else if c == '-' {
                n.set_cur(push_comment(m.current, seq!['-']))
            } else {
                m.set_cur(push_comment(m.current, seq!['-', '-', c])).to(TokenizationState::Comment)
            },
            None => n.emit_cur().emit(TokenModel::Eof),
        },
        TokenizationState::Doctype => match c {
            Some(c) => if html_ws(c) {
                n.to(TokenizationState::BeforeDoctypeName)
            } else {
                m.to(TokenizationState::BeforeDoctypeName)
            },
            None => n.set_cur(Some(doctype(None, true))).emit(doctype(None, true)).emit(TokenModel::Eof),
        },
        TokenizationState::BeforeDoctypeName => match c {
            Some(c) => if html_ws(c) {
                n
            } else if ascii_upper(c) {
                n.set_cur(Some(doctype(Some(seq![ascii_lower(c)]), false))).to(TokenizationState::DoctypeName)
            } else if c == '\0' {
                n.set_cur(Some(doctype(Some(seq!['\u{FFFD}']), false))).to(TokenizationState::DoctypeName)
            } else if c == '>' {
                n.set_cur(Some(doctype(None, true))).to(TokenizationState::Data).emit(doctype(None, true))
            } else {
                n.set_cur(Some(doctype(Some(seq![c]), false))).to(TokenizationState::DoctypeName)
            },
            None => n.set_cur(Some(doctype(None, true))).emit(doctype(None, true)).emit(TokenModel::Eof),
        },
        TokenizationState::DoctypeName => match c {
            Some(c) => if html_ws(c) {
                n.to(TokenizationState::AfterDoctypeName)
            } else if c == '>' {
                n.to(TokenizationState::Data).emit_cur()
            } else if ascii_upper(c) {
                n.set_cur(push_doctype_name(m.current, ascii_lower(c)))
            } else if c == '\0' {
                n.set_cur(push_doctype_name(m.current, '\u{FFFD}'))
            } else {
                n.set_cur(push_doctype_name(m.current, c))
            },
            None => n.set_cur(set_force_quirks(m.current)).emit_cur().emit(TokenModel::Eof),
        },
        TokenizationState::AfterDoctypeName => match c {
            Some(c) => if c == '>' {
                n.to(TokenizationState::Data).emit_cur()
            } else {
                n
            },
            None => n.set_cur(set_force_quirks(m.current)).emit_cur().emit(TokenModel::Eof),
        },
    }
}

/// The characters from the cursor on, at most `k` of them.
pub open spec fn peek_upto(m: TokenizerModel, k: nat) -> Seq<char> {
    if m.pos + k <= m.input.len() {
        m.input.subrange(m.pos as int, (m.pos + k) as int)
    } else if m.pos <= m.input.len() {
        m.input.subrange(m.pos as int, m.input.len() as int)
    } else {
        Seq::empty()
    }
}

/// Whether `DOCTYPE` is recognised after `<!`: up to ASCII case, or (upper-cased)
/// by comparing the upper-case form of the (up to) seven characters ahead,
/// which is empty when nothing is ahead.
pub open spec fn markup_doctype(m: TokenizerModel, mm: MarkupMatch) -> bool {
    match mm {
        MarkupMatch::IgnoreAsciiCase => ahead_is(m, doctype_word()),
        MarkupMatch::UpperCased => peek_upto(m, 7).len() > 0 && uppercase(peek_upto(m, 7))
            == doctype_word(),
    }
}

/// Whether `[CDATA[` is recognised after `<!` (which neither tokenizer supports).
pub open spec fn markup_cdata(m: TokenizerModel, mm: MarkupMatch) -> bool {
    match mm {
        MarkupMatch::IgnoreAsciiCase => ahead_is(m, cdata_word()),
        MarkupMatch::UpperCased => ahead_is_exactly(m, cdata_word()),
    }
}

/// Whether the step from `m` is defined: it does not reach a character
/// reference (`&`), `<!` followed by `[CDATA[`, `<` inside a comment, `--!`,
/// or text after a DOCTYPE name, and it does not emit or extend a token that
/// is not there.
pub open spec fn step_ok(m: TokenizerModel, mm: MarkupMatch) -> bool {
    let c = m.cur();
    let has_cur = m.current is Some;
    match m.state {
        TokenizationState::Data => c != Some('&'),
        TokenizationState::TagName | TokenizationState::RawTextEndTagName
        | TokenizationState::AfterAttributeName | TokenizationState::BeforeAttributeValue
        | TokenizationState::AfterAttributeValueQuoted | TokenizationState::SelfClosingStartTag
        | TokenizationState::CommentStart => c == Some('>') ==> has_cur,
        TokenizationState::AttributeName => match c {
            Some(c) => if html_ws(c) || c == '/' || c == '>' || c == '=' {
                true
            } else if ascii_upper(c) {
                tag_has_attr(m.current)
            } else {
                is_tag(m.current) ==> tag_has_attr(m.current)
            },
            None => true,
        },
        TokenizationState::AttributeValueDoubleQuoted => match c {
            Some(c) => c != '&' && (c != '"' ==> (is_tag(m.current) ==> tag_has_attr(m.current))),
            None => true,
        },
        TokenizationState::AttributeValueSingleQuoted => match c {
            Some(c) => c != '&' && (c != '\'' ==> (is_tag(m.current) ==> tag_has_attr(m.current))),
            None => true,
        },
        TokenizationState::AttributeValueUnquoted => match c {
            Some(c) => c != '&' && (c == '>' ==> has_cur) && (!html_ws(c) && c != '>' ==> (
            is_tag(m.current) ==> tag_has_attr(m.current))),
            None => true,
        },
        TokenizationState::BogusComment | TokenizationState::CommentStartDash => (c == Some('>')
            || c is None) ==> has_cur,
        TokenizationState::CommentEnd => c != Some('!') && ((c == Some('>') || c is None) ==> has_cur),
        TokenizationState::MarkupDeclarationOpen => ahead_is(m, dashes()) || markup_doctype(m, mm) || !markup_cdata(m, mm),
        TokenizationState::Comment => c != Some('<') && (c is None ==> has_cur),
        TokenizationState::CommentEndDash => c is None ==> has_cur,
        TokenizationState::DoctypeName => match c {
            Some(c) => if c == '>' {
                has_cur
            } else if ascii_upper(c) && !html_ws(c) {
                m.current matches Some(TokenModel::Doctype { .. })
            } else {
                true
            },
            None => has_cur,
        },
        TokenizationState::AfterDoctypeName => match c {
            Some(c) => if html_ws(c) {
                true
            } else if c == '>' {
                has_cur
            } else {
                false
            },
            None => has_cur,
        },
        _ => true,
    }
}

} // verus!

verus! {

/// Attribute-name state hands these over to the after-attribute-name state.
pub open spec fn ends_attr_name(c: Option<char>) -> bool {
    match c {
        Some(c) => html_ws(c) || c == '/' || c == '>',
        None => true,
    }
}

/// After-attribute-name state reads or emits on these.
pub open spec fn after_attr_name_reads(c: Option<char>) -> bool {
    match c {
        Some(c) => html_ws(c) || c == '/' || c == '=' || c == '>',
        None => true,
    }
}

/// How many reconsuming steps a state can take before it reads a character.
pub open spec fn rank(m: TokenizerModel) -> nat {
    match m.state {
        TokenizationState::TagOpen | TokenizationState::EndTagOpen
        | TokenizationState::RawTextLessThanSign | TokenizationState::RawTextEndTagOpen
        | TokenizationState::BeforeAttributeValue | TokenizationState::MarkupDeclarationOpen
        | TokenizationState::CommentStart | TokenizationState::CommentStartDash
        | TokenizationState::CommentEndDash | TokenizationState::CommentEnd
        | TokenizationState::Doctype => 1,
        TokenizationState::BeforeAttributeName => 2,
        TokenizationState::AfterAttributeValueQuoted | TokenizationState::SelfClosingStartTag => 3,
        TokenizationState::AttributeName => if ends_attr_name(m.cur()) {
            1
        } else {
            0
        },
        TokenizationState::AfterAttributeName => if after_attr_name_reads(m.cur()) {
            0
        } else {
            1
        },
        _ => 0,
    }
}

/// A measure that every step that emits nothing makes smaller.
pub open spec fn measure(m: TokenizerModel) -> nat {
    let left: nat = if m.pos < m.input.len() {
        (m.input.len() - m.pos) as nat
    } else {
        0
    };
    4 * left + rank(m)
}

/// The steps that one request for a token takes: steps are taken until a
/// token has been emitted (or a step is not defined).
pub open spec fn run(m: TokenizerModel, mm: MarkupMatch) -> TokenizerModel
    decreases measure(m),
{
    if m.output.len() > 0 || !step_ok(m, mm) {
        m
    } else {
        let n = step(m, mm);
        if n.output.len() > 0 {
            n
        } else if measure(n) < measure(m) {
            run(n, mm)
        } else {
            n
        }
    }
}

/// Whether every step of `run(m, mm)` is defined.
pub open spec fn run_ok(m: TokenizerModel, mm: MarkupMatch) -> bool
    decreases measure(m),
{
    if m.output.len() > 0 {
        true
    } else if !step_ok(m, mm) {
        false
    } else {
        let n = step(m, mm);
        if n.output.len() > 0 {
            true
        } else if measure(n) < measure(m) {
            run_ok(n, mm)
        } else {
            true
        }
    }
}

/// A step never makes the measure larger, and one that emits nothing makes it smaller.
pub proof fn lemma_step_progress(m: TokenizerModel, mm: MarkupMatch)
    requires
        m.output.len() == 0,
        step_ok(m, mm),
    ensures
        measure(step(m, mm)) <= measure(m),
        step(m, mm).output.len() > 0 || measure(step(m, mm)) < measure(m),
        step(m, mm).input == m.input,
        step(m, mm).pos <= if m.pos < m.input.len() { m.input.len() + 6 } else { m.pos + 1 },
        step(m, mm).output.len() == 0 ==> step(m, mm).pos <= if m.pos < m.input.len() {
            m.input.len() + 6
        } else {
            m.pos
        },
{
    if m.state == TokenizationState::MarkupDeclarationOpen {
        if ahead_is(m, dashes()) {
        } else if markup_doctype(m, mm) {
        }
    }
}

/// A run all of whose steps are defined ends with a token emitted; it reads
/// the same input and leaves the cursor at most a few characters past its end.
pub proof fn lemma_run(m: TokenizerModel, mm: MarkupMatch)
    requires
        run_ok(m, mm),
    ensures
        run(m, mm).output.len() > 0,
        run(m, mm).input == m.input,
        run(m, mm).pos <= (if m.pos < m.input.len() + 6 { m.input.len() + 6 } else { m.pos }) + 1,
        m.output.len() > 0 ==> run(m, mm) == m,
    decreases measure(m),
{
    if m.output.len() > 0 {
    } else {
        lemma_step_progress(m, mm);
        let n = step(m, mm);
        if n.output.len() > 0 {
        } else {
            lemma_run(n, mm);
        }
    }
}

/// What holds of every tokenizer that requests for tokens reach: the buffer of an end
/// tag name in raw text is empty until its first letter is read, and holds a
/// character once the name is being read (or the character ahead is its first letter).
pub open spec fn tok_inv(m: TokenizerModel) -> bool {
    &&& (m.state == TokenizationState::RawTextEndTagOpen ==> m.temp_buf.len() == 0)
    &&& (m.state == TokenizationState::RawTextEndTagName ==> m.temp_buf.len() >= 1 || (m.cur() matches Some(
        c,
    ) && ascii_alpha(c)))
}

/// The tokens waiting to be handed out include the end-of-file token.
pub open spec fn eof_queued(m: TokenizerModel) -> bool {
    exists|k: int| 0 <= k < m.output.len() && m.output[k] == TokenModel::Eof
}

/// A bound on the tokens that requests can still hand out before the end-of-file
/// token is queued: every step that emits no end-of-file token leaves it no larger.
pub open spec fn potential(m: TokenizerModel) -> nat {
    8 * measure(m) + (if m.state == TokenizationState::RawTextEndTagName {
        3 * m.temp_buf.len()
    } else {
        0
    }) + m.output.len()
}

/// A step keeps the invariant; it never raises the potential by more than three, and
/// raises it at all only when it queues the end-of-file token.
pub proof fn lemma_step_potential(m: TokenizerModel, mm: MarkupMatch)
    requires
        m.output.len() == 0,
        step_ok(m, mm),
        tok_inv(m),
    ensures
        tok_inv(step(m, mm)),
        potential(step(m, mm)) <= potential(m) + 3,
        potential(step(m, mm)) <= potential(m) || eof_queued(step(m, mm)),
        step(m, mm).output.len() == 0 ==> potential(step(m, mm)) < potential(m),
{
    lemma_step_progress(m, mm);
    let n = step(m, mm);
    if n.output.len() > 0 && n.output.last() == TokenModel::Eof {
        assert(n.output[n.output.len() - 1] == TokenModel::Eof);
    }
}

/// A request keeps the invariant; its run never raises the potential by more than
/// three, and raises it at all only when the end-of-file token is queued.
pub proof fn lemma_run_potential(m: TokenizerModel, mm: MarkupMatch)
    requires
        run_ok(m, mm),
        tok_inv(m),
    ensures
        tok_inv(run(m, mm)),
        potential(run(m, mm)) <= potential(m) + 3,
        potential(run(m, mm)) <= potential(m) || eof_queued(run(m, mm)),
    decreases measure(m),
{
    if m.output.len() == 0 {
        lemma_step_potential(m, mm);
        lemma_step_progress(m, mm);
        let n = step(m, mm);
        if n.output.len() == 0 {
            lemma_run_potential(n, mm);
        }
    }
}


/// The text has no ASCII upper-case letter.
pub open spec fn lower_name(s: Seq<char>) -> bool {
    forall|i: int| 0 <= i < s.len() ==> !ascii_upper(#[trigger] s[i])
}

/// A start or end tag whose name has no ASCII upper-case letter, or another token.
pub open spec fn lower_tag(t: TokenModel) -> bool {
    match t {
        TokenModel::StartTag { tag_name, .. } => lower_name(tag_name),
        TokenModel::EndTag { tag_name, .. } => lower_name(tag_name),
        _ => true,
    }
}

/// Every tag of the tokenizer, the one being built and those emitted, has a name
/// without ASCII upper-case letters.
pub open spec fn lower_tags(m: TokenizerModel) -> bool {
    &&& (m.current matches Some(t) ==> lower_tag(t))
    &&& forall|i: int| 0 <= i < m.output.len() ==> lower_tag(#[trigger] m.output[i])
}

proof fn lemma_lower_not_upper(c: char)
    ensures
        !ascii_upper(ascii_lower(c)),
{
    if ascii_upper(c) {
        let u = c as u32;
        assert(65 <= u <= 90);
        assert(ascii_lower(c) == (u + 32) as char);
        assert(((u + 32) as char) as u32 == u + 32);
    }
}

proof fn lemma_lower_push(s: Seq<char>, c: char)
    requires
        lower_name(s),
        !ascii_upper(c),
    ensures
        lower_name(s.push(c)),
{
    assert forall|i: int| 0 <= i < s.push(c).len() implies !ascii_upper(#[trigger] s.push(c)[i]) by {
        if i < s.len() {
            assert(s.push(c)[i] == s[i]);
        }
    }
}

/// Tag names are lower-cased as they are read: a step of the tokenizer never puts an
/// ASCII upper-case letter into the name of a tag, being built or emitted.
#[verifier::rlimit(60)]
#[verifier::spinoff_prover]
pub proof fn lemma_step_lower_tags(m: TokenizerModel, mm: MarkupMatch)
    requires
        lower_tags(m),
        step_ok(m, mm),
    ensures
        lower_tags(step(m, mm)),
{
    let c = m.cur();
    if let Some(c) = c {
        lemma_lower_not_upper(c);
        if let Some(TokenModel::StartTag { tag_name, .. }) = m.current {
            lemma_lower_push(tag_name, ascii_lower(c));
            if !ascii_upper(c) {
                lemma_lower_push(tag_name, c);
            }
            lemma_lower_push(tag_name, '\u{FFFD}');
        }
        if let Some(TokenModel::EndTag { tag_name, .. }) = m.current {
            lemma_lower_push(tag_name, ascii_lower(c));
            if !ascii_upper(c) {
                lemma_lower_push(tag_name, c);
            }
            lemma_lower_push(tag_name, '\u{FFFD}');
        }
    }
    let n = step(m, mm);
    assert forall|k: int| 0 <= k < m.temp_buf.len() implies #[trigger] char_tokens(m.temp_buf)[k] is Character by {}
    assert forall|i: int| 0 <= i < n.output.len() implies lower_tag(#[trigger] n.output[i]) by {
        if i < m.output.len() {
            assert(n.output[i] == m.output[i]);
        } else {
            assert(n.output[i] is Character || n.output[i] is Eof || n.output[i] is Doctype || n.output[i] is Comment
                || Some(n.output[i]) == m.current || Some(n.output[i]) == n.current);
        }
    }
}

/// A request for a token keeps tag names lower-case.
pub proof fn lemma_run_lower_tags(m: TokenizerModel, mm: MarkupMatch)
    requires
        lower_tags(m),
    ensures
        lower_tags(run(m, mm)),
    decreases measure(m),
{
    if m.output.len() == 0 && step_ok(m, mm) {
        lemma_step_lower_tags(m, mm);
        let n = step(m, mm);
        if n.output.len() == 0 && measure(n) < measure(m) {
            lemma_run_lower_tags(n, mm);
        }
    }
}

} // verus!
