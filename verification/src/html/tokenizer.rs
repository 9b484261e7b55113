//! An HTML tokenizer that reads its input by index and hands out one token per
//! `consume_token` call; it recognises `DOCTYPE` by upper-casing what follows `<!`.
use std::collections::VecDeque;

use vstd::prelude::*;

pub use crate::html::token::{HtmlToken, TokenizationState};

use crate::html::token::{
    copy_token, is_html_ws, new_doctype, new_end_tag, new_start_tag, opt_token_view, tok_add_attr,
    tok_push_attr, tok_push_comment, tok_push_doctype_name, tok_push_end_tag_name, tok_push_tag_name,
    tok_set_force_quirks, tok_set_self_closing, tokens_view,
};
use crate::html::tokenization::{
    ahead_is, ahead_is_exactly, char_tokens, dashes, doctype_word, lemma_run, lemma_step_progress,
    measure, peek_upto, run, run_ok, step, step_ok, MarkupMatch, TokenModel, TokenizerModel,
};
use crate::text::{
    chars_eq, chars_of, is_ascii, is_ascii_alphabetic, is_ascii_uppercase, string_of_char,
    string_push, to_ascii_lowercase, to_uppercase,
};

verus! {

/// Whether `upper`, the upper-case form of the characters ahead of `<!`, is the
/// keyword `DOCTYPE`.
pub fn is_doctype_keyword(upper: &str) -> (r: bool)
    ensures
        r == (upper@ == doctype_word()),
{
    let seven: [char; 7] = ['D', 'O', 'C', 'T', 'Y', 'P', 'E'];
    assert(seven@ =~= doctype_word());
    chars_eq(chars_of(upper).as_slice(), &seven)
}

#[derive(Debug)]
pub struct HtmlTokenizer {
    state: TokenizationState,
    input: Vec<char>,
    /// The index of the next character to read; it may run past the end of the input.
    pub current_pos: usize,
    current_token: Option<HtmlToken>,
    output: VecDeque<HtmlToken>,
    /// https://html.spec.whatwg.org/multipage/parsing.html#temporary-buffer
    temp_buf: Vec<char>,
}

impl View for HtmlTokenizer {
    type V = TokenizerModel;

    closed spec fn view(&self) -> TokenizerModel {
        TokenizerModel {
            state: self.state,
            current: opt_token_view(self.current_token),
            input: self.input@,
            pos: self.current_pos as nat,
            output: tokens_view(self.output@),
            temp_buf: self.temp_buf@,
        }
    }
}

/// This tokenizer compares `--` and `[CDATA[` exactly and `DOCTYPE` against
/// the upper-case form of the input.
pub open spec fn mm() -> MarkupMatch {
    MarkupMatch::UpperCased
}

/// Whether a request for a token from `m` is answered: every step it takes is
/// defined and the cursor stays far enough from `usize::MAX`.
pub open spec fn can_consume(m: TokenizerModel) -> bool {
    &&& run_ok(m, mm())
    &&& m.pos + 8 < usize::MAX
    &&& m.input.len() + 16 < usize::MAX
}

/// The tokenizer after a request for a token from `m`, and the token handed out.
pub open spec fn after_consume(m: TokenizerModel) -> (TokenizerModel, TokenModel) {
    let r = run(m, mm());
    (r.with_output(r.output.drop_first()), r.output[0])
}

/// `--` ahead up to ASCII case is `--` ahead exactly.
proof fn lemma_dashes_exactly(m: TokenizerModel)
    ensures
        ahead_is(m, dashes()) == ahead_is_exactly(m, dashes()),
{
    if m.pos + 2 <= m.input.len() {
        let s = m.input.subrange(m.pos as int, (m.pos + 2) as int);
        if ahead_is(m, dashes()) {
            assert(crate::text::ascii_lower(s[0]) == crate::text::ascii_lower(dashes()[0]));
            assert(crate::text::ascii_lower(s[1]) == crate::text::ascii_lower(dashes()[1]));
            assert(s =~= dashes());
        }
    }
}

impl HtmlTokenizer {
    pub fn new(input: &str) -> (t: Self)
        ensures
            t@ == crate::html::token::initial(input@),
    {
        let t = Self {
            state: TokenizationState::Data,
            input: chars_of(input),
            current_pos: 0,
            current_token: None,
            output: VecDeque::new(),
            temp_buf: Vec::new(),
        };
        assert(t@.output =~= Seq::<TokenModel>::empty());
        t
    }

    /// https://html.spec.whatwg.org/multipage/parsing.html#reconsume
    fn allow_reconsume(&mut self, move_to: TokenizationState)
        requires
            old(self)@.pos >= 1,
        ensures
            final(self)@ == old(self)@.to(move_to).with_pos((old(self)@.pos - 1) as nat),
    {
        self.state = move_to;
        self.current_pos -= 1;
    }

    /// Returns the next character in the input stream.
    pub fn consume_char(&mut self) -> (c: Option<char>)
        requires
            old(self)@.pos < usize::MAX,
        ensures
            c == old(self)@.cur(),
            final(self)@ == old(self)@.adv(),
    {
        let c = if self.current_pos < self.input.len() {
            Some(self.input[self.current_pos])
        } else {
            None
        };
        self.current_pos += 1;
        c
    }

    /// Returns the next `len` characters from the input stream without consuming them.
    /// Even if the input stream is shorter than `len`, it will return the characters it can.
    pub fn peek_str(&self, len: usize) -> (s: String)
        ensures
            s@ == peek_upto(self@, len as nat),
    {
        let mut s = String::new();
        if self.current_pos >= self.input.len() {
            assert(s@ =~= peek_upto(self@, len as nat));
            return s;
        }
        let mut i = self.current_pos;
        while i < self.input.len() && i - self.current_pos < len
            invariant
                self.current_pos <= i <= self.input@.len(),
                i <= self.current_pos + len,
                s@ == self.input@.subrange(self.current_pos as int, i as int),
            decreases self.input@.len() - i,
        {
            string_push(&mut s, self.input[i]);
            assert(self.input@.subrange(self.current_pos as int, i + 1) =~= self.input@.subrange(
                self.current_pos as int,
                i as int,
            ).push(self.input@[i as int]));
            i += 1;
        }
        s
    }

    fn create_token(&mut self, token: HtmlToken)
        ensures
            final(self)@ == old(self)@.set_cur(Some(token@)),
    {
        self.current_token = Some(token);
    }

    fn emit_token(&mut self, token: HtmlToken)
        ensures
            final(self)@ == old(self)@.emit(token@),
    {
        self.output.push_back(token);
        assert(tokens_view(self.output@) =~= tokens_view(old(self).output@).push(token@));
    }

    fn emit_tokens(&mut self, tokens: Vec<HtmlToken>)
        ensures
            final(self)@ == old(self)@.with_output(old(self)@.output + tokens_view(tokens@)),
    {
        let mut rest = tokens;
        let ghost all = rest@;
        let ghost start = self@;
        while rest.len() > 0
            invariant
                all.len() >= rest@.len(),
                rest@ == all.skip(all.len() - rest@.len()),
                self@ == start.with_output(
                    start.output + tokens_view(all.take(all.len() - rest@.len())),
                ),
            decreases rest@.len(),
        {
            let ghost k = all.len() - rest@.len();
            let t = rest.remove(0);
            assert(t == all[k]);
            self.emit_token(t);
            assert(all.take(k + 1) == all.take(k).push(all[k]));
            assert(tokens_view(all.take(k + 1)) =~= tokens_view(all.take(k)).push(all[k]@));
            assert(rest@ =~= all.skip(k + 1));
        }
        assert(all.take(all.len() as int) == all);
    }

    /// This is called by the HTML parser.
    pub fn change_state(&mut self, new_state: TokenizationState)
        ensures
            final(self)@ == old(self)@.to(new_state),
    {
        self.state = new_state;
    }

    /// The next character (and the cursor moved past it, also at the end).
    fn next_char(&mut self) -> (c: Option<char>)
        requires
            old(self)@.pos < usize::MAX,
        ensures
            c == old(self)@.cur(),
            final(self)@ == old(self)@.adv(),
    {
        self.consume_char()
    }

    fn emit_current(&mut self)
        requires
            old(self)@.current is Some,
        ensures
            final(self)@ == old(self)@.emit_cur(),
    {
        let t = copy_token(self.current_token.as_ref().unwrap());
        self.emit_token(t);
    }
}

impl HtmlTokenizer {
    /// When a token is emitted, it must immediately be handled by the tree construction stage.
    pub fn consume_token(&mut self) -> (t: HtmlToken)
        requires
            can_consume(old(self)@),
        ensures
            final(self)@ == after_consume(old(self)@).0,
            t@ == after_consume(old(self)@).1,
    {
        let ghost m0 = self@;
        let ghost bound: nat = if m0.pos < m0.input.len() + 6 { m0.input.len() + 6 } else { m0.pos };
        proof {
            lemma_run(m0, mm());
        }
        // Buffer the output since multiple tokens can be emitted at once.
        while self.output.len() == 0
            invariant
                run_ok(self@, mm()),
                run(self@, mm()) == run(m0, mm()),
                self@.input == m0.input,
                self@.output.len() == 0 ==> self@.pos <= bound,
                self@.pos <= bound + 1,
                bound + 8 < usize::MAX,
                bound >= m0.input.len() + 6,
                self.output@.len() == self@.output.len(),
            decreases 2 * measure(self@) + if self@.output.len() == 0 { 1int } else { 0int },
        {
            let ghost before = self@;
            proof {
                lemma_step_progress(before, mm());
            }
            match self.state {
                TokenizationState::Data => self.tokenize_data(),
                TokenizationState::RawText => self.tokenize_rawtext(),
                TokenizationState::TagOpen => self.tokenize_tag_open(),
                TokenizationState::EndTagOpen => self.tokenize_end_tag_open(),
                TokenizationState::TagName => self.tokenize_tag_name(),
                TokenizationState::RawTextLessThanSign => self.tokenize_rawtext_less_than_sign(),
                TokenizationState::RawTextEndTagOpen => self.tokenize_rawtext_end_tag_open(),
                TokenizationState::RawTextEndTagName => self.tokenize_rawtext_end_tag_name(),
                TokenizationState::BeforeAttributeName => self.tokenize_before_attr_name(),
                TokenizationState::AttributeName => self.tokenize_attr_name(),
                TokenizationState::AfterAttributeName => self.tokenize_after_attr_name(),
                TokenizationState::BeforeAttributeValue => self.tokenize_before_attr_value(),
                TokenizationState::AttributeValueDoubleQuoted => self.tokenize_attr_value_quoted('"'),
                TokenizationState::AttributeValueSingleQuoted => self.tokenize_attr_value_quoted('\''),
                TokenizationState::AttributeValueUnquoted => self.tokenize_attr_value_unquoted(),
                TokenizationState::AfterAttributeValueQuoted => self.tokenize_after_attr_value_quoted(),
                TokenizationState::SelfClosingStartTag => self.tokenize_self_closing_start_tag(),
                TokenizationState::BogusComment => self.tokenize_bogus_comment(),
                TokenizationState::MarkupDeclarationOpen => self.tokenize_markup_declaration_open(),
                TokenizationState::CommentStart => self.tokenize_comment_start(),
                TokenizationState::CommentStartDash => self.tokenize_comment_start_dash(),
                TokenizationState::Comment => self.tokenize_comment(),
                TokenizationState::CommentEndDash => self.tokenize_comment_end_dash(),
                TokenizationState::CommentEnd => self.tokenize_comment_end(),
                TokenizationState::Doctype => self.tokenize_doctype(),
                TokenizationState::BeforeDoctypeName => self.tokenize_before_doctype_name(),
                TokenizationState::DoctypeName => self.tokenize_doctype_name(),
                TokenizationState::AfterDoctypeName => self.tokenize_after_doctype_name(),
            }
            proof {
                assert(self@ == step(before, mm()));
                assert(before.pos <= bound);
                assert(before.input == m0.input);
                if self@.output.len() == 0 {
                    lemma_run(self@, mm());
                }
            }
        }
        proof {
            lemma_run(self@, mm());
        }
        let ghost r = self@;
        let t = self.output.pop_front().unwrap();
        assert(tokens_view(self.output@) =~= r.output.drop_first());
        t
    }

}

impl HtmlTokenizer {
    fn tokenize_data(&mut self)
        requires
            old(self)@.state == TokenizationState::Data,
            step_ok(old(self)@, mm()),
            old(self)@.output.len() == 0,
            old(self)@.pos + 8 < usize::MAX,
        ensures
            final(self)@ == step(old(self)@, mm()),
    {
        match self.next_char() {
            Some(c) => {
                if c == '<' {
                    self.state = TokenizationState::TagOpen;
                } else if c == '\0' {
                    self.emit_token(HtmlToken::Character('\u{FFFD}'));
                } else {
                    self.emit_token(HtmlToken::Character(c));
                }
            },
            None => {
                self.emit_token(HtmlToken::Eof);
            },
        }
    }

    fn tokenize_rawtext(&mut self)
        requires
            old(self)@.state == TokenizationState::RawText,
            step_ok(old(self)@, mm()),
            old(self)@.output.len() == 0,
            old(self)@.pos + 8 < usize::MAX,
        ensures
            final(self)@ == step(old(self)@, mm()),
    {
        match self.next_char() {
            Some(c) => {
                if c == '<' {
                    self.state = TokenizationState::RawTextLessThanSign;
                } else if c == '\0' {
                    self.emit_token(HtmlToken::Character('\u{FFFD}'));
                } else {
                    self.emit_token(HtmlToken::Character(c));
                }
            },
            None => {
                self.emit_token(HtmlToken::Eof);
            },
        }
    }

    fn tokenize_tag_open(&mut self)
        requires
            old(self)@.state == TokenizationState::TagOpen,
            step_ok(old(self)@, mm()),
            old(self)@.output.len() == 0,
            old(self)@.pos + 8 < usize::MAX,
        ensures
            final(self)@ == step(old(self)@, mm()),
    {
        match self.next_char() {
            Some(c) => {
                if c == '!' {
                    self.state = TokenizationState::MarkupDeclarationOpen;
                } else if c == '/' {
                    self.state = TokenizationState::EndTagOpen;
                } else if is_ascii_alphabetic(c) {
                    self.create_token(new_start_tag());
                    self.allow_reconsume(TokenizationState::TagName);
                } else {
                    self.allow_reconsume(TokenizationState::Data);
                    self.emit_token(HtmlToken::Character('<'));
                }
            },
            None => {
                let mut v: Vec<HtmlToken> = Vec::new();
                v.push(HtmlToken::Character('<'));
                v.push(HtmlToken::Eof);
                self.emit_tokens(v);
            },
        }
    }

    fn tokenize_end_tag_open(&mut self)
        requires
            old(self)@.state == TokenizationState::EndTagOpen,
            step_ok(old(self)@, mm()),
            old(self)@.output.len() == 0,
            old(self)@.pos + 8 < usize::MAX,
        ensures
            final(self)@ == step(old(self)@, mm()),
    {
        match self.next_char() {
            Some(c) => {
                if is_ascii_alphabetic(c) {
                    self.create_token(new_end_tag());
                    self.allow_reconsume(TokenizationState::TagName);
                } else if c == '>' {
                    self.state = TokenizationState::Data;
                } else {
                    self.create_token(HtmlToken::Comment(String::new()));
                    self.allow_reconsume(TokenizationState::BogusComment);
                }
            },
            None => {
                let mut v: Vec<HtmlToken> = Vec::new();
                v.push(HtmlToken::Character('<'));
                v.push(HtmlToken::Character('/'));
                v.push(HtmlToken::Eof);
                self.emit_tokens(v);
            },
        }
    }

    fn tokenize_tag_name(&mut self)
        requires
            old(self)@.state == TokenizationState::TagName,
            step_ok(old(self)@, mm()),
            old(self)@.output.len() == 0,
            old(self)@.pos + 8 < usize::MAX,
        ensures
            final(self)@ == step(old(self)@, mm()),
    {
        match self.next_char() {
            Some(c) => {
                if is_html_ws(c) {
                    self.state = TokenizationState::BeforeAttributeName;
                } else if c == '/' {
                    self.state = TokenizationState::SelfClosingStartTag;
                } else if c == '>' {
                    self.state = TokenizationState::Data;
                    self.emit_current();
                } else if is_ascii_uppercase(c) {
                    tok_push_tag_name(&mut self.current_token, to_ascii_lowercase(c));
                } else if c == '\0' {
                    tok_push_tag_name(&mut self.current_token, '\u{FFFD}');
                } else {
                    tok_push_tag_name(&mut self.current_token, c);
                }
            },
            None => {
                self.emit_token(HtmlToken::Eof);
            },
        }
    }

    fn tokenize_rawtext_less_than_sign(&mut self)
        requires
            old(self)@.state == TokenizationState::RawTextLessThanSign,
            step_ok(old(self)@, mm()),
            old(self)@.output.len() == 0,
            old(self)@.pos + 8 < usize::MAX,
        ensures
            final(self)@ == step(old(self)@, mm()),
    {
        match self.next_char() {
            Some('/') => {
                self.temp_buf.clear();
                self.state = TokenizationState::RawTextEndTagOpen;
            },
            _ => {
                let mut v: Vec<HtmlToken> = Vec::new();
                v.push(HtmlToken::Character('<'));
                self.emit_tokens(v);
                self.allow_reconsume(TokenizationState::RawText);
            },
        }
    }

    fn tokenize_rawtext_end_tag_open(&mut self)
        requires
            old(self)@.state == TokenizationState::RawTextEndTagOpen,
            step_ok(old(self)@, mm()),
            old(self)@.output.len() == 0,
            old(self)@.pos + 8 < usize::MAX,
        ensures
            final(self)@ == step(old(self)@, mm()),
    {
        match self.next_char() {
            Some(c) if is_ascii_alphabetic(c) => {
                self.create_token(new_end_tag());
                self.allow_reconsume(TokenizationState::RawTextEndTagName);
            },
            _ => {
                let mut v: Vec<HtmlToken> = Vec::new();
                v.push(HtmlToken::Character('<'));
                v.push(HtmlToken::Character('/'));
                self.emit_tokens(v);
                self.allow_reconsume(TokenizationState::RawText);
            },
        }
    }

    fn tokenize_rawtext_end_tag_name(&mut self)
        requires
            old(self)@.state == TokenizationState::RawTextEndTagName,
            step_ok(old(self)@, mm()),
            old(self)@.output.len() == 0,
            old(self)@.pos + 8 < usize::MAX,
        ensures
            final(self)@ == step(old(self)@, mm()),
    {
        let ghost m = self@;
        match self.next_char() {
            Some(c) if is_html_ws(c) => {
                self.state = TokenizationState::BeforeAttributeName;
            },
            Some('/') => {
                self.state = TokenizationState::SelfClosingStartTag;
            },
            Some('>') => {
                self.state = TokenizationState::Data;
                self.emit_current();
            },
            Some(c) if is_ascii(c) => {
                tok_push_end_tag_name(&mut self.current_token, to_ascii_lowercase(c));
                self.temp_buf.push(c);
            },
            _ => {
                let mut v: Vec<HtmlToken> = Vec::new();
                v.push(HtmlToken::Character('<'));
                v.push(HtmlToken::Character('/'));
                self.emit_tokens(v);
                assert(tokens_view(v@) =~= seq![TokenModel::Character('<'), TokenModel::Character('/')]);
                assert(char_tokens(m.temp_buf.take(0)) =~= Seq::<TokenModel>::empty());
                assert(self@.output =~= m.output + seq![TokenModel::Character('<'), TokenModel::Character('/')]
                    + char_tokens(m.temp_buf.take(0)));
                let mut i: usize = 0;
                while i < self.temp_buf.len()
                    invariant
                        i <= self@.temp_buf.len(),
                        self.temp_buf@.len() == self@.temp_buf.len(),
                        self@ == m.adv().with_output(
                            m.output + seq![TokenModel::Character('<'), TokenModel::Character('/')]
                                + char_tokens(m.temp_buf.take(i as int)),
                        ),
                    decreases self@.temp_buf.len() - i,
                {
                    let c = self.temp_buf[i];
                    assert(c == m.temp_buf[i as int]);
                    let ghost before = self@;
                    self.emit_token(HtmlToken::Character(c));
                    assert(m.temp_buf.take(i + 1) =~= m.temp_buf.take(i as int).push(c));
                    assert(char_tokens(m.temp_buf.take(i + 1)) =~= char_tokens(m.temp_buf.take(i as int)).push(
                        crate::html::tokenization::char_token(c),
                    ));
                    assert(self@.output =~= m.output + seq![TokenModel::Character('<'), TokenModel::Character('/')]
                        + char_tokens(m.temp_buf.take(i + 1)));
                    i += 1;
                }
                assert(m.temp_buf.take(m.temp_buf.len() as int) == m.temp_buf);
                self.allow_reconsume(TokenizationState::RawText);
            },
        }
    }

    fn tokenize_before_attr_name(&mut self)
        requires
            old(self)@.state == TokenizationState::BeforeAttributeName,
            step_ok(old(self)@, mm()),
            old(self)@.output.len() == 0,
            old(self)@.pos + 8 < usize::MAX,
        ensures
            final(self)@ == step(old(self)@, mm()),
    {
        match self.next_char() {
            Some(c) => {
                if is_html_ws(c) {
                } else if c == '/' || c == '>' {
                    self.allow_reconsume(TokenizationState::AfterAttributeName);
                } else if c == '=' {
                    tok_add_attr(&mut self.current_token, string_of_char(c), String::new());
                } else {
                    tok_add_attr(&mut self.current_token, String::new(), String::new());
                    self.allow_reconsume(TokenizationState::AttributeName);
                }
            },
            None => {
                self.allow_reconsume(TokenizationState::AfterAttributeName);
            },
        }
    }

    fn tokenize_attr_name(&mut self)
        requires
            old(self)@.state == TokenizationState::AttributeName,
            step_ok(old(self)@, mm()),
            old(self)@.output.len() == 0,
            old(self)@.pos + 8 < usize::MAX,
        ensures
            final(self)@ == step(old(self)@, mm()),
    {
        match self.next_char() {
            Some(c) => {
                if is_html_ws(c) || c == '/' || c == '>' {
                    self.allow_reconsume(TokenizationState::AfterAttributeName);
                } else if c == '=' {
                    self.state = TokenizationState::BeforeAttributeValue;
                } else if is_ascii_uppercase(c) {
                    tok_push_attr(&mut self.current_token, to_ascii_lowercase(c), false);
                } else if c == '\0' {
                    tok_push_attr(&mut self.current_token, '\u{FFFD}', false);
                } else {
                    tok_push_attr(&mut self.current_token, c, false);
                }
            },
            None => {
                self.allow_reconsume(TokenizationState::AfterAttributeName);
            },
        }
    }

    fn tokenize_after_attr_name(&mut self)
        requires
            old(self)@.state == TokenizationState::AfterAttributeName,
            step_ok(old(self)@, mm()),
            old(self)@.output.len() == 0,
            old(self)@.pos + 8 < usize::MAX,
        ensures
            final(self)@ == step(old(self)@, mm()),
    {
        match self.next_char() {
            Some(c) => {
                if is_html_ws(c) {
                } else if c == '/' {
                    self.state = TokenizationState::SelfClosingStartTag;
                } else if c == '=' {
                    self.state = TokenizationState::BeforeAttributeValue;
                } else if c == '>' {
                    self.state = TokenizationState::Data;
                    self.emit_current();
                } else {
                    tok_add_attr(&mut self.current_token, String::new(), String::new());
                    self.allow_reconsume(TokenizationState::AttributeName);
                }
            },
            None => {
                self.emit_token(HtmlToken::Eof);
            },
        }
    }

    fn tokenize_before_attr_value(&mut self)
        requires
            old(self)@.state == TokenizationState::BeforeAttributeValue,
            step_ok(old(self)@, mm()),
            old(self)@.output.len() == 0,
            old(self)@.pos + 8 < usize::MAX,
        ensures
            final(self)@ == step(old(self)@, mm()),
    {
        match self.next_char() {
            Some(c) if is_html_ws(c) => {},
            Some('"') => {
                self.state = TokenizationState::AttributeValueDoubleQuoted;
            },
            Some('\'') => {
                self.state = TokenizationState::AttributeValueSingleQuoted;
            },
            Some('>') => {
                self.state = TokenizationState::Data;
                self.emit_current();
            },
            _ => {
                self.allow_reconsume(TokenizationState::AttributeValueUnquoted);
            },
        }
    }

    /// The double-quoted (`quote` is `"`) and single-quoted (`quote` is `'`) attribute value states.
    fn tokenize_attr_value_quoted(&mut self, quote: char)
        requires
            (old(self)@.state == TokenizationState::AttributeValueDoubleQuoted && quote == '"') || (
            old(self)@.state == TokenizationState::AttributeValueSingleQuoted && quote == '\''),
            step_ok(old(self)@, mm()),
            old(self)@.output.len() == 0,
            old(self)@.pos + 8 < usize::MAX,
        ensures
            final(self)@ == step(old(self)@, mm()),
    {
        match self.next_char() {
            Some(c) => {
                if c == quote {
                    self.state = TokenizationState::AfterAttributeValueQuoted;
                } else if c == '\0' {
                    tok_push_attr(&mut self.current_token, '\u{FFFD}', true);
                } else {
                    tok_push_attr(&mut self.current_token, c, true);
                }
            },
            None => {
                self.emit_token(HtmlToken::Eof);
            },
        }
    }

    fn tokenize_attr_value_unquoted(&mut self)
        requires
            old(self)@.state == TokenizationState::AttributeValueUnquoted,
            step_ok(old(self)@, mm()),
            old(self)@.output.len() == 0,
            old(self)@.pos + 8 < usize::MAX,
        ensures
            final(self)@ == step(old(self)@, mm()),
    {
        match self.next_char() {
            Some(c) => {
                if is_html_ws(c) {
                    self.state = TokenizationState::BeforeAttributeName;
                } else if c == '>' {
                    self.state = TokenizationState::Data;
                    self.emit_current();
                } else if c == '\0' {
                    tok_push_attr(&mut self.current_token, '\u{FFFD}', true);
                } else {
                    tok_push_attr(&mut self.current_token, c, true);
                }
            },
            None => {
                self.emit_token(HtmlToken::Eof);
            },
        }
    }

    fn tokenize_after_attr_value_quoted(&mut self)
        requires
            old(self)@.state == TokenizationState::AfterAttributeValueQuoted,
            step_ok(old(self)@, mm()),
            old(self)@.output.len() == 0,
            old(self)@.pos + 8 < usize::MAX,
        ensures
            final(self)@ == step(old(self)@, mm()),
    {
        match self.next_char() {
            Some(c) => {
                if is_html_ws(c) {
                    self.state = TokenizationState::BeforeAttributeName;
                } else if c == '/' {
                    self.state = TokenizationState::SelfClosingStartTag;
                } else if c == '>' {
                    self.state = TokenizationState::Data;
                    self.emit_current();
                } else {
                    self.allow_reconsume(TokenizationState::BeforeAttributeName);
                }
            },
            None => {
                self.emit_token(HtmlToken::Eof);
            },
        }
    }

    fn tokenize_self_closing_start_tag(&mut self)
        requires
            old(self)@.state == TokenizationState::SelfClosingStartTag,
            step_ok(old(self)@, mm()),
            old(self)@.output.len() == 0,
            old(self)@.pos + 8 < usize::MAX,
        ensures
            final(self)@ == step(old(self)@, mm()),
    {
        match self.next_char() {
            Some(c) => {
                if c == '>' {
                    tok_set_self_closing(&mut self.current_token);
                    self.state = TokenizationState::Data;
                    self.emit_current();
                } else {
                    self.allow_reconsume(TokenizationState::BeforeAttributeName);
                }
            },
            None => {
                self.emit_token(HtmlToken::Eof);
            },
        }
    }

    fn tokenize_bogus_comment(&mut self)
        requires
            old(self)@.state == TokenizationState::BogusComment,
            step_ok(old(self)@, mm()),
            old(self)@.output.len() == 0,
            old(self)@.pos + 8 < usize::MAX,
        ensures
            final(self)@ == step(old(self)@, mm()),
    {
        match self.next_char() {
            Some(c) => {
                if c == '>' {
                    self.state = TokenizationState::Data;
                    self.emit_current();
                } else if c == '\0' {
                    tok_push_comment(&mut self.current_token, '\u{FFFD}');
                } else {
                    tok_push_comment(&mut self.current_token, c);
                }
            },
            None => {
                self.emit_current();
                self.emit_token(HtmlToken::Eof);
            },
        }
    }

    fn tokenize_markup_declaration_open(&mut self)
        requires
            old(self)@.state == TokenizationState::MarkupDeclarationOpen,
            step_ok(old(self)@, mm()),
            old(self)@.output.len() == 0,
            old(self)@.pos + 8 < usize::MAX,
        ensures
            final(self)@ == step(old(self)@, mm()),
    {
        let two: [char; 2] = ['-', '-'];
        assert(two@ =~= dashes());
        proof {
            lemma_dashes_exactly(self@);
        }
        let ahead2 = chars_of(self.peek_str(2).as_str());
        if chars_eq(ahead2.as_slice(), &two) {
            self.current_pos += 2;
            self.create_token(HtmlToken::Comment(String::new()));
            self.state = TokenizationState::CommentStart;
        } else {
            let ahead7 = self.peek_str(7);
            if is_doctype_keyword(to_uppercase(ahead7.as_str()).as_str()) {
                self.current_pos += 7;
                self.state = TokenizationState::Doctype;
            } else {
                self.create_token(HtmlToken::Comment(String::new()));
                self.state = TokenizationState::BogusComment;
            }
        }
    }

    fn tokenize_comment_start(&mut self)
        requires
            old(self)@.state == TokenizationState::CommentStart,
            step_ok(old(self)@, mm()),
            old(self)@.output.len() == 0,
            old(self)@.pos + 8 < usize::MAX,
        ensures
            final(self)@ == step(old(self)@, mm()),
    {
        match self.next_char() {
            Some('-') => {
                self.state = TokenizationState::CommentStartDash;
            },
            Some('>') => {
                self.state = TokenizationState::Data;
                self.emit_current();
            },
            _ => {
                self.allow_reconsume(TokenizationState::Comment);
            },
        }
    }

    fn tokenize_comment_start_dash(&mut self)
        requires
            old(self)@.state == TokenizationState::CommentStartDash,
            step_ok(old(self)@, mm()),
            old(self)@.output.len() == 0,
            old(self)@.pos + 8 < usize::MAX,
        ensures
            final(self)@ == step(old(self)@, mm()),
    {
        match self.next_char() {
            Some(c) => {
                if c == '-' {
                    self.state = TokenizationState::CommentEnd;
                } else if c == '>' {
                    self.state = TokenizationState::Data;
                    self.emit_current();
                } else {
                    tok_push_comment(&mut self.current_token, '-');
                    self.allow_reconsume(TokenizationState::Comment);
                }
            },
            None => {
                self.emit_current();
                self.emit_token(HtmlToken::Eof);
            },
        }
    }

    fn tokenize_comment(&mut self)
        requires
            old(self)@.state == TokenizationState::Comment,
            step_ok(old(self)@, mm()),
            old(self)@.output.len() == 0,
            old(self)@.pos + 8 < usize::MAX,
        ensures
            final(self)@ == step(old(self)@, mm()),
    {
        match self.next_char() {
            Some(c) => {
                if c == '-' {
                    self.state = TokenizationState::CommentEndDash;
                } else if c == '\0' {
                    tok_push_comment(&mut self.current_token, '\u{FFFD}');
                } else {
                    tok_push_comment(&mut self.current_token, c);
                }
            },
            None => {
                self.emit_current();
                self.emit_token(HtmlToken::Eof);
            },
        }
    }

    fn tokenize_comment_end_dash(&mut self)
        requires
            old(self)@.state == TokenizationState::CommentEndDash,
            step_ok(old(self)@, mm()),
            old(self)@.output.len() == 0,
            old(self)@.pos + 8 < usize::MAX,
        ensures
            final(self)@ == step(old(self)@, mm()),
    {
        match self.next_char() {
            Some(c) => {
                if c == '-' {
                    self.state = TokenizationState::CommentEnd;
                } else {
                    tok_push_comment(&mut self.current_token, '-');
                    self.allow_reconsume(TokenizationState::Comment);
                }
            },
            None => {
                self.emit_current();
                self.emit_token(HtmlToken::Eof);
            },
        }
    }

    fn tokenize_comment_end(&mut self)
        requires
            old(self)@.state == TokenizationState::CommentEnd,
            step_ok(old(self)@, mm()),
            old(self)@.output.len() == 0,
            old(self)@.pos + 8 < usize::MAX,
        ensures
            final(self)@ == step(old(self)@, mm()),
    {
        match self.next_char() {
            Some(c) => {
                if c == '>' {
                    self.state = TokenizationState::Data;
                    self.emit_current();
                } else if c == '-' {
                    tok_push_comment(&mut self.current_token, '-');
                } else {
                    let ghost t0 = opt_token_view(self.current_token);
                    tok_push_comment(&mut self.current_token, '-');
                    tok_push_comment(&mut self.current_token, '-');
                    tok_push_comment(&mut self.current_token, c);
                    assert(seq!['-'] + seq!['-'] + seq![c] =~= seq!['-', '-', c]);
                    proof {
                        match t0 {
                            Some(TokenModel::Comment(d)) => {
                                assert(d + seq!['-'] + seq!['-'] + seq![c] =~= d + seq!['-', '-', c]);
                            },
                            _ => {},
                        }
                    }
                    self.allow_reconsume(TokenizationState::Comment);
                }
            },
            None => {
                self.emit_current();
                self.emit_token(HtmlToken::Eof);
            },
        }
    }

    fn tokenize_doctype(&mut self)
        requires
            old(self)@.state == TokenizationState::Doctype,
            step_ok(old(self)@, mm()),
            old(self)@.output.len() == 0,
            old(self)@.pos + 8 < usize::MAX,
        ensures
            final(self)@ == step(old(self)@, mm()),
    {
        match self.next_char() {
            Some(c) => {
                if is_html_ws(c) {
                    self.state = TokenizationState::BeforeDoctypeName;
                } else {
                    self.allow_reconsume(TokenizationState::BeforeDoctypeName);
                }
            },
            None => {
                self.create_token(new_doctype(None, true));
                self.emit_current();
                self.emit_token(HtmlToken::Eof);
            },
        }
    }

    fn tokenize_before_doctype_name(&mut self)
        requires
            old(self)@.state == TokenizationState::BeforeDoctypeName,
            step_ok(old(self)@, mm()),
            old(self)@.output.len() == 0,
            old(self)@.pos + 8 < usize::MAX,
        ensures
            final(self)@ == step(old(self)@, mm()),
    {
        match self.next_char() {
            Some(c) => {
                if is_html_ws(c) {
                } else if is_ascii_uppercase(c) {
                    self.create_token(new_doctype(Some(string_of_char(to_ascii_lowercase(c))), false));
                    self.state = TokenizationState::DoctypeName;
                } else if c == '\0' {
                    self.create_token(new_doctype(Some(string_of_char('\u{FFFD}')), false));
                    self.state = TokenizationState::DoctypeName;
                } else if c == '>' {
                    self.create_token(new_doctype(None, true));
                    self.state = TokenizationState::Data;
                    self.emit_current();
                } else {
                    self.create_token(new_doctype(Some(string_of_char(c)), false));
                    self.state = TokenizationState::DoctypeName;
                }
            },
            None => {
                self.create_token(new_doctype(None, true));
                self.emit_current();
                self.emit_token(HtmlToken::Eof);
            },
        }
    }

    fn tokenize_doctype_name(&mut self)
        requires
            old(self)@.state == TokenizationState::DoctypeName,
            step_ok(old(self)@, mm()),
            old(self)@.output.len() == 0,
            old(self)@.pos + 8 < usize::MAX,
        ensures
            final(self)@ == step(old(self)@, mm()),
    {
        match self.next_char() {
            Some(c) => {
                if is_html_ws(c) {
                    self.state = TokenizationState::AfterDoctypeName;
                } else if c == '>' {
                    self.state = TokenizationState::Data;
                    self.emit_current();
                } else if is_ascii_uppercase(c) {
                    tok_push_doctype_name(&mut self.current_token, to_ascii_lowercase(c));
                } else if c == '\0' {
                    tok_push_doctype_name(&mut self.current_token, '\u{FFFD}');
                } else {
                    tok_push_doctype_name(&mut self.current_token, c);
                }
            },
            None => {
                tok_set_force_quirks(&mut self.current_token);
                self.emit_current();
                self.emit_token(HtmlToken::Eof);
            },
        }
    }

    fn tokenize_after_doctype_name(&mut self)
        requires
            old(self)@.state == TokenizationState::AfterDoctypeName,
            step_ok(old(self)@, mm()),
            old(self)@.output.len() == 0,
            old(self)@.pos + 8 < usize::MAX,
        ensures
            final(self)@ == step(old(self)@, mm()),
    {
        match self.next_char() {
            Some(c) => {
                if c == '>' {
                    self.state = TokenizationState::Data;
                    self.emit_current();
                }
            },
            None => {
                tok_set_force_quirks(&mut self.current_token);
                self.emit_current();
                self.emit_token(HtmlToken::Eof);
            },
        }
    }
}

} // verus!
