//! The HTML tokenizer: https://html.spec.whatwg.org/multipage/parsing.html#tokenization
use std::collections::VecDeque;

use vstd::prelude::*;

use crate::html::tokenization::{
    lower_tag, lower_tags, lemma_run_lower_tags,
    add_attr, dashes, doctype, doctype_word, empty_end_tag, empty_start_tag, lemma_run, lemma_step_progress, measure, push_attr_name, push_attr_value, push_comment, push_doctype_name, push_end_tag_name,
    push_last_name, push_last_value, push_tag_name, run, run_ok, set_force_quirks, set_self_closing,
    step, step_ok, ahead_is, char_tokens, html_ws, MarkupMatch, TokenModel, TokenizerModel,
};
use crate::text::{
    ascii_alpha, ascii_lower, ascii_upper, is_ascii, is_ascii_alphabetic, is_ascii_uppercase, string_of_char, string_push, to_ascii_lowercase,
};
use crate::utils::TokenIterator;

verus! {

#[derive(Debug, Clone, Copy, PartialEq, Eq, Structural)]
pub enum TokenizationState {
    Data,
    RawText,
    TagOpen,
    EndTagOpen,
    TagName,
    RawTextLessThanSign,
    RawTextEndTagOpen,
    RawTextEndTagName,
    BeforeAttributeName,
    AttributeName,
    AfterAttributeName,
    BeforeAttributeValue,
    AttributeValueDoubleQuoted,
    AttributeValueSingleQuoted,
    AttributeValueUnquoted,
    SelfClosingStartTag,
    AfterAttributeValueQuoted,
    BogusComment,
    MarkupDeclarationOpen,
    CommentStart,
    CommentStartDash,
    Comment,
    CommentEndDash,
    CommentEnd,
    Doctype,
    BeforeDoctypeName,
    DoctypeName,
    AfterDoctypeName,
}

impl Default for TokenizationState {
    fn default() -> (r: Self)
        ensures
            r == TokenizationState::Data,
    {
        TokenizationState::Data
    }
}

/// The output of the tokenization step is a series of zero or more of the following tokens:
/// DOCTYPE, start tag, end tag, comment, character, end-of-file.
#[derive(Debug, Clone, PartialEq)]
pub enum HtmlToken {
    Doctype {
        /// This is marked as missing when the token is created.
        name: Option<String>,
        /// This is marked as missing when the token is created.
        public_identifier: Option<String>,
        /// This is marked as missing when the token is created.
        system_identifier: Option<String>,
        /// This is set to off when the token is created.
        force_quirks: bool,
    },
    StartTag {
        tag_name: String,
        /// A list of attributes, where each attribute is a tuple of (name, value).
        /// This is empty when the token is created.
        attributes: Vec<(String, String)>,
        /// This is unset when the token is created.
        self_closing: bool,
    },
    EndTag {
        tag_name: String,
        /// A list of attributes, where each attribute is a tuple of (name, value).
        /// This is empty when the token is created.
        attributes: Vec<(String, String)>,
        /// This is unset when the token is created.
        self_closing: bool,
    },
    Comment(String),
    Character(char),
    Eof,
}

pub open spec fn opt_str_view(s: Option<String>) -> Option<Seq<char>> {
    match s {
        Some(s) => Some(s@),
        None => None,
    }
}

pub open spec fn attrs_view(a: Seq<(String, String)>) -> Seq<(Seq<char>, Seq<char>)> {
    a.map_values(|p: (String, String)| (p.0@, p.1@))
}

impl View for HtmlToken {
    type V = TokenModel;

    open spec fn view(&self) -> TokenModel {
        match self {
            HtmlToken::Doctype { name, public_identifier, system_identifier, force_quirks } =>
                TokenModel::Doctype {
                name: opt_str_view(*name),
                public_identifier: opt_str_view(*public_identifier),
                system_identifier: opt_str_view(*system_identifier),
                force_quirks: *force_quirks,
            },
            HtmlToken::StartTag { tag_name, attributes, self_closing } => TokenModel::StartTag {
                tag_name: tag_name@,
                attributes: attrs_view(attributes@),
                self_closing: *self_closing,
            },
            HtmlToken::EndTag { tag_name, attributes, self_closing } => TokenModel::EndTag {
                tag_name: tag_name@,
                attributes: attrs_view(attributes@),
                self_closing: *self_closing,
            },
            HtmlToken::Comment(s) => TokenModel::Comment(s@),
            HtmlToken::Character(c) => TokenModel::Character(*c),
            HtmlToken::Eof => TokenModel::Eof,
        }
    }
}

pub open spec fn opt_token_view(t: Option<HtmlToken>) -> Option<TokenModel> {
    match t {
        Some(t) => Some(t@),
        None => None,
    }
}

pub open spec fn tokens_view(s: Seq<HtmlToken>) -> Seq<TokenModel> {
    s.map_values(|t: HtmlToken| t@)
}

fn copy_string(s: &String) -> (r: String)
    ensures
        r@ == s@,
{
    s.clone()
}

fn copy_opt_string(s: &Option<String>) -> (r: Option<String>)
    ensures
        opt_str_view(r) == opt_str_view(*s),
{
    match s {
        Some(s) => Some(copy_string(s)),
        None => None,
    }
}

fn copy_attrs(a: &Vec<(String, String)>) -> (r: Vec<(String, String)>)
    ensures
        attrs_view(r@) == attrs_view(a@),
{
    let mut r: Vec<(String, String)> = Vec::new();
    let mut i: usize = 0;
    while i < a.len()
        invariant
            i <= a@.len(),
            r@.len() == i,
            attrs_view(r@) == attrs_view(a@).take(i as int),
        decreases a@.len() - i,
    {
        let x = copy_string(&a[i].0);
        let y = copy_string(&a[i].1);
        let ghost prev = r@;
        r.push((x, y));
        assert(r@ == prev.push((x, y)));
        assert(attrs_view(r@)[i as int] == attrs_view(a@)[i as int]);
        assert(attrs_view(r@) =~= attrs_view(a@).take(i + 1));
        i += 1;
    }
    assert(attrs_view(a@).take(a@.len() as int) =~= attrs_view(a@));
    r
}

/// A copy of `t`.
pub(crate) fn copy_token(t: &HtmlToken) -> (r: HtmlToken)
    ensures
        r@ == t@,
{
    match t {
        HtmlToken::Doctype { name, public_identifier, system_identifier, force_quirks } => HtmlToken::Doctype {
            name: copy_opt_string(name),
            public_identifier: copy_opt_string(public_identifier),
            system_identifier: copy_opt_string(system_identifier),
            force_quirks: *force_quirks,
        },
        HtmlToken::StartTag { tag_name, attributes, self_closing } => HtmlToken::StartTag {
            tag_name: copy_string(tag_name),
            attributes: copy_attrs(attributes),
            self_closing: *self_closing,
        },
        HtmlToken::EndTag { tag_name, attributes, self_closing } => HtmlToken::EndTag {
            tag_name: copy_string(tag_name),
            attributes: copy_attrs(attributes),
            self_closing: *self_closing,
        },
        HtmlToken::Comment(s) => HtmlToken::Comment(copy_string(s)),
        HtmlToken::Character(c) => HtmlToken::Character(*c),
        HtmlToken::Eof => HtmlToken::Eof,
    }
}

pub(crate) fn new_start_tag() -> (t: HtmlToken)
    ensures
        t@ == empty_start_tag(),
{
    let t = HtmlToken::StartTag { tag_name: String::new(), attributes: Vec::new(), self_closing: false };
    assert(attrs_view(Seq::<(String, String)>::empty()) =~= Seq::empty());
    t
}

pub(crate) fn new_end_tag() -> (t: HtmlToken)
    ensures
        t@ == empty_end_tag(),
{
    let t = HtmlToken::EndTag { tag_name: String::new(), attributes: Vec::new(), self_closing: false };
    assert(attrs_view(Seq::<(String, String)>::empty()) =~= Seq::empty());
    t
}

pub(crate) fn new_doctype(name: Option<String>, force_quirks: bool) -> (t: HtmlToken)
    ensures
        t@ == doctype(opt_str_view(name), force_quirks),
{
    HtmlToken::Doctype { name, public_identifier: None, system_identifier: None, force_quirks }
}

/// Appends `c` to the tag name of a start or end tag.
pub(crate) fn tok_push_tag_name(t: &mut Option<HtmlToken>, c: char)
    ensures
        opt_token_view(*final(t)) == push_tag_name(opt_token_view(*old(t)), c),
{
    let old_t = t.take();
    *t = match old_t {
        Some(HtmlToken::StartTag { tag_name, attributes, self_closing }) => {
            let mut tag_name = tag_name;
            string_push(&mut tag_name, c);
            Some(HtmlToken::StartTag { tag_name, attributes, self_closing })
        },
        Some(HtmlToken::EndTag { tag_name, attributes, self_closing }) => {
            let mut tag_name = tag_name;
            string_push(&mut tag_name, c);
            Some(HtmlToken::EndTag { tag_name, attributes, self_closing })
        },
        other => other,
    };
}

/// Appends `c` to the tag name of an end tag.
pub(crate) fn tok_push_end_tag_name(t: &mut Option<HtmlToken>, c: char)
    ensures
        opt_token_view(*final(t)) == push_end_tag_name(opt_token_view(*old(t)), c),
{
    let old_t = t.take();
    *t = match old_t {
        Some(HtmlToken::EndTag { tag_name, attributes, self_closing }) => {
            let mut tag_name = tag_name;
            string_push(&mut tag_name, c);
            Some(HtmlToken::EndTag { tag_name, attributes, self_closing })
        },
        other => other,
    };
}

fn attrs_push(a: &mut Vec<(String, String)>, name: String, value: String)
    ensures
        attrs_view(final(a)@) == attrs_view(old(a)@).push((name@, value@)),
{
    a.push((name, value));
    assert(attrs_view(a@) =~= attrs_view(old(a)@).push((name@, value@)));
}

/// Starts a new attribute `(name, value)` on a start or end tag.
pub(crate) fn tok_add_attr(t: &mut Option<HtmlToken>, name: String, value: String)
    ensures
        opt_token_view(*final(t)) == add_attr(opt_token_view(*old(t)), name@, value@),
{
    let old_t = t.take();
    *t = match old_t {
        Some(HtmlToken::StartTag { tag_name, attributes, self_closing }) => {
            let mut attributes = attributes;
            attrs_push(&mut attributes, name, value);
            Some(HtmlToken::StartTag { tag_name, attributes, self_closing })
        },
        Some(HtmlToken::EndTag { tag_name, attributes, self_closing }) => {
            let mut attributes = attributes;
            attrs_push(&mut attributes, name, value);
            Some(HtmlToken::EndTag { tag_name, attributes, self_closing })
        },
        other => other,
    };
}

fn attrs_push_last(a: &mut Vec<(String, String)>, c: char, to_value: bool)
    requires
        old(a)@.len() > 0,
    ensures
        attrs_view(final(a)@) == if to_value {
            push_last_value(attrs_view(old(a)@), c)
        } else {
            push_last_name(attrs_view(old(a)@), c)
        },
{
    let last = a.pop().unwrap();
    let (mut name, mut value) = last;
    if to_value {
        string_push(&mut value, c);
    } else {
        string_push(&mut name, c);
    }
    a.push((name, value));
    proof {
        let v = attrs_view(old(a)@);
        if to_value {
            assert(attrs_view(a@) =~= push_last_value(v, c));
        } else {
            assert(attrs_view(a@) =~= push_last_name(v, c));
        }
    }
}

/// Appends `c` to the name (or, with `to_value`, the value) of the last
/// attribute of a start or end tag.
pub(crate) fn tok_push_attr(t: &mut Option<HtmlToken>, c: char, to_value: bool)
    requires
        crate::html::tokenization::is_tag(opt_token_view(*old(t))) ==> crate::html::tokenization::tag_has_attr(opt_token_view(*old(t))),
    ensures
        opt_token_view(*final(t)) == if to_value {
            push_attr_value(opt_token_view(*old(t)), c)
        } else {
            push_attr_name(opt_token_view(*old(t)), c)
        },
{
    let old_t = t.take();
    *t = match old_t {
        Some(HtmlToken::StartTag { tag_name, attributes, self_closing }) => {
            let mut attributes = attributes;
            attrs_push_last(&mut attributes, c, to_value);
            Some(HtmlToken::StartTag { tag_name, attributes, self_closing })
        },
        Some(HtmlToken::EndTag { tag_name, attributes, self_closing }) => {
            let mut attributes = attributes;
            attrs_push_last(&mut attributes, c, to_value);
            Some(HtmlToken::EndTag { tag_name, attributes, self_closing })
        },
        other => other,
    };
}

/// Sets the self-closing flag of a start or end tag.
pub(crate) fn tok_set_self_closing(t: &mut Option<HtmlToken>)
    ensures
        opt_token_view(*final(t)) == set_self_closing(opt_token_view(*old(t))),
{
    let old_t = t.take();
    *t = match old_t {
        Some(HtmlToken::StartTag { tag_name, attributes, .. }) => Some(
            HtmlToken::StartTag { tag_name, attributes, self_closing: true },
        ),
        Some(HtmlToken::EndTag { tag_name, attributes, .. }) => Some(
            HtmlToken::EndTag { tag_name, attributes, self_closing: true },
        ),
        other => other,
    };
}

/// Appends `c` to the data of a comment.
pub(crate) fn tok_push_comment(t: &mut Option<HtmlToken>, c: char)
    ensures
        opt_token_view(*final(t)) == push_comment(opt_token_view(*old(t)), seq![c]),
{
    let old_t = t.take();
    *t = match old_t {
        Some(HtmlToken::Comment(d)) => {
            let mut d = d;
            string_push(&mut d, c);
            Some(HtmlToken::Comment(d))
        },
        other => other,
    };
}

/// Appends `c` to the name of a DOCTYPE token whose name is present.
pub(crate) fn tok_push_doctype_name(t: &mut Option<HtmlToken>, c: char)
    ensures
        opt_token_view(*final(t)) == push_doctype_name(opt_token_view(*old(t)), c),
{
    let old_t = t.take();
    *t = match old_t {
        Some(HtmlToken::Doctype { name: Some(n), public_identifier, system_identifier, force_quirks }) => {
            let mut n = n;
            string_push(&mut n, c);
            Some(HtmlToken::Doctype { name: Some(n), public_identifier, system_identifier, force_quirks })
        },
        other => other,
    };
}

/// Turns on the force-quirks flag of a DOCTYPE token.
pub(crate) fn tok_set_force_quirks(t: &mut Option<HtmlToken>)
    ensures
        opt_token_view(*final(t)) == set_force_quirks(opt_token_view(*old(t))),
{
    let old_t = t.take();
    *t = match old_t {
        Some(HtmlToken::Doctype { name, public_identifier, system_identifier, .. }) => Some(
            HtmlToken::Doctype { name, public_identifier, system_identifier, force_quirks: true },
        ),
        other => other,
    };
}

#[derive(Debug)]
pub struct HtmlTokenizer {
    state: TokenizationState,
    current_token: Option<HtmlToken>,
    /// The tree construction stage can affect the state of the tokenization stage,
    /// and can insert additional characters into the stream.
    /// However, for simplicity, we assume that the input stream is never modified.
    input: TokenIterator<char>,
    output: VecDeque<HtmlToken>,
    /// https://html.spec.whatwg.org/multipage/parsing.html#temporary-buffer
    temp_buf: Vec<char>,
}

impl View for HtmlTokenizer {
    type V = TokenizerModel;

    closed spec fn view(&self) -> TokenizerModel {
        TokenizerModel {
            state: self.state,
            current: opt_token_view(self.current_token),
            input: self.input.items(),
            pos: self.input.pos(),
            output: tokens_view(self.output@),
            temp_buf: self.temp_buf@,
        }
    }
}

/// The tokenizer recognises `--`, `DOCTYPE` and `[CDATA[` up to ASCII case.
pub open spec fn mm() -> MarkupMatch {
    MarkupMatch::IgnoreAsciiCase
}

/// The initial state of a tokenizer over `input`.
pub open spec fn initial(input: Seq<char>) -> TokenizerModel {
    TokenizerModel {
        state: TokenizationState::Data,
        current: None,
        input,
        pos: 0,
        output: Seq::empty(),
        temp_buf: Seq::empty(),
    }
}

/// Whether a request for a token from `m` is answered: every step it takes is
/// defined and the cursor stays far enough from `usize::MAX`.
pub open spec fn can_consume(m: TokenizerModel) -> bool {
    &&& run_ok(m, mm())
    &&& m.pos + 8 < usize::MAX
    &&& m.input.len() + 16 < usize::MAX
}

/// The tokenizer after a request for a token from `m`, and the token handed out.
pub open spec fn after_consume(m: TokenizerModel) -> (TokenizerModel, TokenModel) {
    let r = run(m, mm());
    (r.with_output(r.output.drop_first()), r.output[0])
}

/// Tag names come out lower-cased: a new tokenizer has no tag with an ASCII upper-case
/// letter in its name, and every request for a token from a tokenizer without one hands
/// out a token whose tag name, if it is a tag, has none, and leaves a tokenizer without
/// one. So no start or end tag that `consume` hands out has an upper-case letter in its
/// name.
pub proof fn lemma_tag_names_lower(s: Seq<char>, m: TokenizerModel)
    ensures
        lower_tags(initial(s)),
        lower_tags(m) && can_consume(m) ==> lower_tag(after_consume(m).1) && lower_tags(after_consume(m).0),
{
    if lower_tags(m) && can_consume(m) {
        lemma_run(m, mm());
        lemma_run_lower_tags(m, mm());
        let r = run(m, mm());
        let rest = r.with_output(r.output.drop_first());
        assert forall|i: int| 0 <= i < rest.output.len() implies lower_tag(#[trigger] rest.output[i]) by {
            assert(rest.output[i] == r.output[i + 1]);
        }
    }
}

/// `w` with its ASCII upper-case letters lower-cased.
pub open spec fn lowered(w: Seq<char>) -> Seq<char> {
    w.map_values(|c: char| ascii_lower(c))
}

/// The start tag named `name`, without attributes.
pub open spec fn plain_start_tag(name: Seq<char>) -> TokenModel {
    TokenModel::StartTag { tag_name: name, attributes: Seq::empty(), self_closing: false }
}

/// The end tag named `name`, without attributes.
pub open spec fn plain_end_tag(name: Seq<char>) -> TokenModel {
    TokenModel::EndTag { tag_name: name, attributes: Seq::empty(), self_closing: false }
}

/// The start tag (or, where `end`, the end tag) named `name`, without attributes.
pub open spec fn plain_tag(end: bool, name: Seq<char>) -> TokenModel {
    if end {
        plain_end_tag(name)
    } else {
        plain_start_tag(name)
    }
}

/// `s` holds the letters `w` from position `f` on, and `>` after them.
pub open spec fn letters_then_close(s: Seq<char>, f: nat, w: Seq<char>) -> bool {
    &&& w.len() >= 1
    &&& f + w.len() + 1 <= s.len()
    &&& s[(f + w.len()) as int] == '>'
    &&& forall|i: int| 0 <= i < w.len() ==> ascii_alpha(#[trigger] w[i]) && s[f + i] == w[i]
}

/// `s` holds `<`, the letters `w` and `>` from position `k` on.
pub open spec fn start_tag_text(s: Seq<char>, k: nat, w: Seq<char>) -> bool {
    &&& k < s.len()
    &&& s[k as int] == '<'
    &&& letters_then_close(s, k + 1, w)
}

/// `s` holds `</`, the letters `w` and `>` from position `k` on.
pub open spec fn end_tag_text(s: Seq<char>, k: nat, w: Seq<char>) -> bool {
    &&& k + 1 < s.len()
    &&& s[k as int] == '<'
    &&& s[(k + 1) as int] == '/'
    &&& letters_then_close(s, k + 2, w)
}

proof fn lemma_tag_name_letters(s: Seq<char>, f: nat, w: Seq<char>, j: nat, end: bool)
    requires
        letters_then_close(s, f, w),
        j <= w.len(),
    ensures
        ({
            let m = TokenizerModel {
                state: TokenizationState::TagName,
                current: Some(plain_tag(end, lowered(w.take(j as int)))),
                input: s,
                pos: f + j,
                output: Seq::empty(),
                temp_buf: Seq::empty(),
            };
            &&& run_ok(m, mm())
            &&& run(m, mm()) == TokenizerModel {
                state: TokenizationState::Data,
                current: Some(plain_tag(end, lowered(w))),
                input: s,
                pos: f + w.len() + 1,
                output: seq![plain_tag(end, lowered(w))],
                temp_buf: Seq::empty(),
            }
        }),
    decreases w.len() - j,
{
    let m = TokenizerModel {
        state: TokenizationState::TagName,
        current: Some(plain_tag(end, lowered(w.take(j as int)))),
        input: s,
        pos: f + j,
        output: Seq::empty(),
        temp_buf: Seq::empty(),
    };
    if j == w.len() {
        assert(w.take(j as int) =~= w);
        assert(m.cur() == Some('>'));
        let n = step(m, mm());
        assert(n.output =~= seq![plain_tag(end, lowered(w))]);
    } else {
        let c = w[j as int];
        assert(ascii_alpha(c));
        assert(m.cur() == Some(c));
        assert(!html_ws(c) && c != '/' && c != '>' && c != '\0');
        assert(lowered(w.take((j + 1) as int)) =~= lowered(w.take(j as int)).push(ascii_lower(c)));
        if !ascii_upper(c) {
            assert(ascii_lower(c) == c);
        }
        let n = step(m, mm());
        assert(n == TokenizerModel {
            current: Some(plain_tag(end, lowered(w.take((j + 1) as int)))),
            pos: f + j + 1,
            ..m
        });
        lemma_step_progress(m, mm());
        lemma_tag_name_letters(s, f, w, j + 1, end);
    }
}

/// A start tag written as `<`, letters and `>` comes out as a start tag named by those
/// letters lower-cased, without attributes and not self-closing, and the tokenizer goes
/// on after the `>` in the data state.
pub proof fn lemma_plain_start_tag(s: Seq<char>, k: nat, w: Seq<char>)
    requires
        start_tag_text(s, k, w),
    ensures
        run_ok(data_at(s, k), mm()),
        after_consume(data_at(s, k)).1 == plain_start_tag(lowered(w)),
        after_consume(data_at(s, k)).0.state == TokenizationState::Data,
        after_consume(data_at(s, k)).0.pos == k + w.len() + 2,
        after_consume(data_at(s, k)).0.output.len() == 0,
{
    let m0 = data_at(s, k);
    let m1 = step(m0, mm());
    assert(m1 == TokenizerModel { state: TokenizationState::TagOpen, pos: k + 1, ..m0 });
    lemma_step_progress(m0, mm());
    let m2 = step(m1, mm());
    assert(m1.cur() == Some(w[0]));
    assert(m2 == TokenizerModel { state: TokenizationState::TagName, current: Some(empty_start_tag()), ..m1 });
    lemma_step_progress(m1, mm());
    assert(lowered(w.take(0)) =~= Seq::<char>::empty());
    lemma_tag_name_letters(s, k + 1, w, 0, false);
    assert(step_ok(m0, mm()) && step_ok(m1, mm()));
    assert(run(m1, mm()) == run(m2, mm()) && run_ok(m1, mm()) == run_ok(m2, mm()));
    assert(run(m0, mm()) == run(m1, mm()) && run_ok(m0, mm()) == run_ok(m1, mm()));
    let r = run(m0, mm());
    assert(r.output.drop_first() =~= Seq::<TokenModel>::empty());
}

/// An end tag written as `</`, letters and `>` comes out as an end tag named by those
/// letters lower-cased, and the tokenizer goes on after the `>` in the data state.
pub proof fn lemma_plain_end_tag(s: Seq<char>, k: nat, w: Seq<char>)
    requires
        end_tag_text(s, k, w),
    ensures
        run_ok(data_at(s, k), mm()),
        after_consume(data_at(s, k)).1 == plain_end_tag(lowered(w)),
        after_consume(data_at(s, k)).0.state == TokenizationState::Data,
        after_consume(data_at(s, k)).0.pos == k + w.len() + 3,
        after_consume(data_at(s, k)).0.output.len() == 0,
{
    let m0 = data_at(s, k);
    let m1 = step(m0, mm());
    assert(m1 == TokenizerModel { state: TokenizationState::TagOpen, pos: k + 1, ..m0 });
    lemma_step_progress(m0, mm());
    let m2 = step(m1, mm());
    assert(m1.cur() == Some('/'));
    assert(m2 == TokenizerModel { state: TokenizationState::EndTagOpen, pos: k + 2, ..m0 });
    lemma_step_progress(m1, mm());
    let m3 = step(m2, mm());
    assert(m2.cur() == Some(w[0]));
    assert(m3 == TokenizerModel { state: TokenizationState::TagName, current: Some(empty_end_tag()), ..m2 });
    lemma_step_progress(m2, mm());
    assert(lowered(w.take(0)) =~= Seq::<char>::empty());
    lemma_tag_name_letters(s, k + 2, w, 0, true);
    assert(step_ok(m0, mm()) && step_ok(m1, mm()) && step_ok(m2, mm()));
    assert(run(m2, mm()) == run(m3, mm()) && run_ok(m2, mm()) == run_ok(m3, mm()));
    assert(run(m1, mm()) == run(m2, mm()) && run_ok(m1, mm()) == run_ok(m2, mm()));
    assert(run(m0, mm()) == run(m1, mm()) && run_ok(m0, mm()) == run_ok(m1, mm()));
    let r = run(m0, mm());
    assert(r.output.drop_first() =~= Seq::<TokenModel>::empty());
}

/// A step that emits nothing leaves the rest of the request as it was.
proof fn lemma_run_step(m: TokenizerModel)
    requires
        m.output.len() == 0,
        step_ok(m, mm()),
        step(m, mm()).output.len() == 0,
    ensures
        run(m, mm()) == run(step(m, mm()), mm()),
        run_ok(m, mm()) == run_ok(step(m, mm()), mm()),
{
    lemma_step_progress(m, mm());
}

/// A start tag being named: state `TagName`, its name so far, at `pos`.
pub open spec fn naming_tag(s: Seq<char>, name: Seq<char>, pos: nat) -> TokenizerModel {
    TokenizerModel {
        state: TokenizationState::TagName,
        current: Some(plain_start_tag(name)),
        input: s,
        pos,
        output: Seq::empty(),
        temp_buf: Seq::empty(),
    }
}

/// A start tag named `tag` with the one attribute `(name, value)` being read in `state`.
pub open spec fn reading_attr(
    s: Seq<char>,
    state: TokenizationState,
    tag: Seq<char>,
    name: Seq<char>,
    value: Seq<char>,
    pos: nat,
) -> TokenizerModel {
    TokenizerModel {
        state,
        current: Some(TokenModel::StartTag { tag_name: tag, attributes: seq![(name, value)], self_closing: false }),
        input: s,
        pos,
        output: Seq::empty(),
        temp_buf: Seq::empty(),
    }
}

/// `s` holds the ASCII letters `w` from position `f` on.
pub open spec fn letters_at(s: Seq<char>, f: nat, w: Seq<char>) -> bool {
    &&& f + w.len() <= s.len()
    &&& forall|i: int| 0 <= i < w.len() ==> ascii_alpha(#[trigger] w[i]) && s[f + i] == w[i]
}

proof fn lemma_tag_letters_run(s: Seq<char>, f: nat, w: Seq<char>, j: nat)
    requires
        letters_at(s, f, w),
        j <= w.len(),
    ensures
        run(naming_tag(s, lowered(w.take(j as int)), f + j), mm()) == run(naming_tag(s, lowered(w), f + w.len()), mm()),
        run_ok(naming_tag(s, lowered(w.take(j as int)), f + j), mm()) == run_ok(
            naming_tag(s, lowered(w), f + w.len()),
            mm(),
        ),
    decreases w.len() - j,
{
    if j == w.len() {
        assert(w.take(j as int) =~= w);
    } else {
        let m = naming_tag(s, lowered(w.take(j as int)), f + j);
        let c = w[j as int];
        assert(m.cur() == Some(c));
        assert(!html_ws(c) && c != '/' && c != '>' && c != '\0');
        assert(lowered(w.take((j + 1) as int)) =~= lowered(w.take(j as int)).push(ascii_lower(c)));
        if !ascii_upper(c) {
            assert(ascii_lower(c) == c);
        }
        assert(step(m, mm()) == naming_tag(s, lowered(w.take((j + 1) as int)), f + j + 1));
        lemma_run_step(m);
        lemma_tag_letters_run(s, f, w, j + 1);
    }
}

proof fn lemma_attr_letters_run(s: Seq<char>, g: nat, n: Seq<char>, j: nat, tag: Seq<char>)
    requires
        letters_at(s, g, n),
        j <= n.len(),
    ensures
        run(reading_attr(s, TokenizationState::AttributeName, tag, lowered(n.take(j as int)), Seq::empty(), g + j), mm())
            == run(reading_attr(s, TokenizationState::AttributeName, tag, lowered(n), Seq::empty(), g + n.len()), mm()),
        run_ok(reading_attr(s, TokenizationState::AttributeName, tag, lowered(n.take(j as int)), Seq::empty(), g + j), mm())
            == run_ok(reading_attr(s, TokenizationState::AttributeName, tag, lowered(n), Seq::empty(), g + n.len()), mm()),
    decreases n.len() - j,
{
    if j == n.len() {
        assert(n.take(j as int) =~= n);
    } else {
        let x = lowered(n.take(j as int));
        let m = reading_attr(s, TokenizationState::AttributeName, tag, x, Seq::empty(), g + j);
        let c = n[j as int];
        assert(m.cur() == Some(c));
        assert(!html_ws(c) && c != '/' && c != '>' && c != '=' && c != '\0');
        assert(lowered(n.take((j + 1) as int)) =~= x.push(ascii_lower(c)));
        if !ascii_upper(c) {
            assert(ascii_lower(c) == c);
        }
        assert(push_last_name(seq![(x, Seq::<char>::empty())], ascii_lower(c)) =~= seq![(x.push(ascii_lower(c)), Seq::<char>::empty())]);
        assert(step(m, mm()) == reading_attr(s, TokenizationState::AttributeName, tag, lowered(n.take((j + 1) as int)), Seq::empty(), g + j + 1));
        lemma_run_step(m);
        lemma_attr_letters_run(s, g, n, j + 1, tag);
    }
}

proof fn lemma_attr_value_run(s: Seq<char>, q: nat, v: Seq<char>, j: nat, tag: Seq<char>, name: Seq<char>)
    requires
        q + v.len() <= s.len(),
        forall|i: int| 0 <= i < v.len() ==> (#[trigger] v[i]) != '"' && v[i] != '&' && v[i] != '\0' && s[q + i] == v[i],
        j <= v.len(),
    ensures
        run(reading_attr(s, TokenizationState::AttributeValueDoubleQuoted, tag, name, v.take(j as int), q + j), mm())
            == run(reading_attr(s, TokenizationState::AttributeValueDoubleQuoted, tag, name, v, q + v.len()), mm()),
        run_ok(reading_attr(s, TokenizationState::AttributeValueDoubleQuoted, tag, name, v.take(j as int), q + j), mm())
            == run_ok(reading_attr(s, TokenizationState::AttributeValueDoubleQuoted, tag, name, v, q + v.len()), mm()),
    decreases v.len() - j,
{
    if j == v.len() {
        assert(v.take(j as int) =~= v);
    } else {
        let y = v.take(j as int);
        let m = reading_attr(s, TokenizationState::AttributeValueDoubleQuoted, tag, name, y, q + j);
        let c = v[j as int];
        assert(m.cur() == Some(c));
        assert(v.take((j + 1) as int) =~= y.push(c));
        assert(push_last_value(seq![(name, y)], c) =~= seq![(name, y.push(c))]);
        assert(step(m, mm()) == reading_attr(s, TokenizationState::AttributeValueDoubleQuoted, tag, name, v.take((j + 1) as int), q + j + 1));
        lemma_run_step(m);
        lemma_attr_value_run(s, q, v, j + 1, tag, name);
    }
}

/// `s` holds, from position `k` on, `<`, the letters `w`, a space, the letters `n`,
/// `="`, the text `v` (without `"`, `&` or NUL) and `">`.
pub open spec fn attr_tag_text(s: Seq<char>, k: nat, w: Seq<char>, n: Seq<char>, v: Seq<char>) -> bool {
    let a = k + 1 + w.len();
    let e = a + 1 + n.len();
    let z = e + 2 + v.len();
    &&& w.len() >= 1
    &&& n.len() >= 1
    &&& z + 2 <= s.len()
    &&& s[k as int] == '<'
    &&& letters_at(s, k + 1, w)
    &&& s[a as int] == ' '
    &&& letters_at(s, a + 1, n)
    &&& s[e as int] == '='
    &&& s[(e + 1) as int] == '"'
    &&& forall|i: int| 0 <= i < v.len() ==> (#[trigger] v[i]) != '"' && v[i] != '&' && v[i] != '\0' && s[e + 2 + i] == v[i]
    &&& s[z as int] == '"'
    &&& s[(z + 1) as int] == '>'
}

/// A start tag with one attribute whose value is in double quotes, written as
/// `<w n="v">`, comes out as a start tag named `w` lower-cased, with the one attribute
/// named `n` lower-cased and valued `v` as written; the tokenizer goes on after the `>`
/// in the data state.
pub proof fn lemma_attribute_tag(s: Seq<char>, k: nat, w: Seq<char>, n: Seq<char>, v: Seq<char>)
    requires
        attr_tag_text(s, k, w, n, v),
    ensures
        run_ok(data_at(s, k), mm()),
        after_consume(data_at(s, k)).1 == (TokenModel::StartTag {
            tag_name: lowered(w),
            attributes: seq![(lowered(n), v)],
            self_closing: false,
        }),
        after_consume(data_at(s, k)).0.state == TokenizationState::Data,
        after_consume(data_at(s, k)).0.pos == k + w.len() + n.len() + v.len() + 6,
        after_consume(data_at(s, k)).0.output.len() == 0,
{
    let a = k + 1 + w.len();
    let e = a + 1 + n.len();
    let z = e + 2 + v.len();
    let tag = lowered(w);
    let name = lowered(n);
    let m0 = data_at(s, k);
    // `<`
    let m1 = step(m0, mm());
    assert(m1 == TokenizerModel { state: TokenizationState::TagOpen, pos: k + 1, ..m0 });
    lemma_run_step(m0);
    // the first letter of the tag name opens a start tag
    assert(m1.cur() == Some(w[0]));
    let m2 = step(m1, mm());
    assert(lowered(w.take(0)) =~= Seq::<char>::empty());
    assert(m2 == naming_tag(s, lowered(w.take(0)), k + 1));
    lemma_run_step(m1);
    lemma_tag_letters_run(s, k + 1, w, 0);
    // the space after the name
    let m3 = naming_tag(s, tag, a);
    assert(m3.cur() == Some(' '));
    let m4 = step(m3, mm());
    assert(m4 == TokenizerModel { state: TokenizationState::BeforeAttributeName, pos: a + 1, ..m3 });
    lemma_run_step(m3);
    // the first letter of the attribute name starts an attribute
    assert(m4.cur() == Some(n[0]));
    assert(ascii_alpha(n[0]));
    let m5 = step(m4, mm());
    assert(lowered(n.take(0)) =~= Seq::<char>::empty());
    assert(seq![].push((Seq::<char>::empty(), Seq::<char>::empty())) =~= seq![(Seq::<char>::empty(), Seq::<char>::empty())]);
    assert(m5 == reading_attr(s, TokenizationState::AttributeName, tag, lowered(n.take(0)), Seq::empty(), a + 1));
    lemma_run_step(m4);
    lemma_attr_letters_run(s, a + 1, n, 0, tag);
    // `=`
    let m6 = reading_attr(s, TokenizationState::AttributeName, tag, name, Seq::empty(), e);
    assert(m6.cur() == Some('='));
    let m7 = step(m6, mm());
    assert(m7 == reading_attr(s, TokenizationState::BeforeAttributeValue, tag, name, Seq::empty(), e + 1));
    lemma_run_step(m6);
    // `"`
    assert(m7.cur() == Some('"'));
    let m8 = step(m7, mm());
    assert(v.take(0) =~= Seq::<char>::empty());
    assert(m8 == reading_attr(s, TokenizationState::AttributeValueDoubleQuoted, tag, name, v.take(0), e + 2));
    lemma_run_step(m7);
    lemma_attr_value_run(s, e + 2, v, 0, tag, name);
    // the closing `"`
    let m9 = reading_attr(s, TokenizationState::AttributeValueDoubleQuoted, tag, name, v, z);
    assert(m9.cur() == Some('"'));
    let m10 = step(m9, mm());
    assert(m10 == reading_attr(s, TokenizationState::AfterAttributeValueQuoted, tag, name, v, z + 1));
    lemma_run_step(m9);
    // `>` emits the tag
    assert(m10.cur() == Some('>'));
    let m11 = step(m10, mm());
    assert(m11.output.len() == 1);
    assert(run(m10, mm()) == m11);
    assert(run_ok(m10, mm()));
    let r = run(m0, mm());
    assert(r == m11);
    assert(r.output.drop_first() =~= Seq::<TokenModel>::empty());
}

/// A comment holding `text` so far, read in the comment state at `pos`.
pub open spec fn in_comment(s: Seq<char>, text: Seq<char>, pos: nat) -> TokenizerModel {
    TokenizerModel {
        state: TokenizationState::Comment,
        current: Some(TokenModel::Comment(text)),
        input: s,
        pos,
        output: Seq::empty(),
        temp_buf: Seq::empty(),
    }
}

proof fn lemma_comment_text_run(s: Seq<char>, f: nat, x: Seq<char>, j: nat)
    requires
        f + x.len() <= s.len(),
        forall|i: int| 0 <= i < x.len() ==> (#[trigger] x[i]) != '-' && x[i] != '<' && x[i] != '\0' && s[f + i] == x[i],
        j <= x.len(),
    ensures
        run(in_comment(s, x.take(j as int), f + j), mm()) == run(in_comment(s, x, f + x.len()), mm()),
        run_ok(in_comment(s, x.take(j as int), f + j), mm()) == run_ok(in_comment(s, x, f + x.len()), mm()),
    decreases x.len() - j,
{
    if j == x.len() {
        assert(x.take(j as int) =~= x);
    } else {
        let m = in_comment(s, x.take(j as int), f + j);
        let c = x[j as int];
        assert(m.cur() == Some(c));
        assert(x.take(j as int) + seq![c] =~= x.take((j + 1) as int));
        assert(step(m, mm()) == in_comment(s, x.take((j + 1) as int), f + j + 1));
        lemma_run_step(m);
        lemma_comment_text_run(s, f, x, j + 1);
    }
}

/// `s` holds, from position `k` on, `<!--`, the text `x` and `-->`, where `x` is not
/// empty, holds no `-`, `<` or NUL, and does not start with `>`.
pub open spec fn comment_text(s: Seq<char>, k: nat, x: Seq<char>) -> bool {
    &&& x.len() >= 1
    &&& k + x.len() + 7 <= s.len()
    &&& s[k as int] == '<'
    &&& s[(k + 1) as int] == '!'
    &&& s[(k + 2) as int] == '-'
    &&& s[(k + 3) as int] == '-'
    &&& x[0] != '>'
    &&& forall|i: int| 0 <= i < x.len() ==> (#[trigger] x[i]) != '-' && x[i] != '<' && x[i] != '\0' && s[k + 4 + i] == x[i]
    &&& s[(k + 4 + x.len()) as int] == '-'
    &&& s[(k + 5 + x.len()) as int] == '-'
    &&& s[(k + 6 + x.len()) as int] == '>'
}

/// A comment written as `<!--x-->` comes out as one comment token holding exactly `x`,
/// and the tokenizer goes on after the `>` in the data state.
pub proof fn lemma_comment(s: Seq<char>, k: nat, x: Seq<char>)
    requires
        comment_text(s, k, x),
    ensures
        run_ok(data_at(s, k), mm()),
        after_consume(data_at(s, k)).1 == TokenModel::Comment(x),
        after_consume(data_at(s, k)).0.state == TokenizationState::Data,
        after_consume(data_at(s, k)).0.pos == k + x.len() + 7,
        after_consume(data_at(s, k)).0.output.len() == 0,
{
    let m0 = data_at(s, k);
    let m1 = step(m0, mm());
    assert(m1 == TokenizerModel { state: TokenizationState::TagOpen, pos: k + 1, ..m0 });
    lemma_run_step(m0);
    assert(m1.cur() == Some('!'));
    let m2 = step(m1, mm());
    assert(m2 == TokenizerModel { state: TokenizationState::MarkupDeclarationOpen, pos: k + 2, ..m0 });
    lemma_run_step(m1);
    assert(s.subrange((k + 2) as int, (k + 4) as int) =~= dashes());
    assert(ahead_is(m2, dashes()));
    let m3 = step(m2, mm());
    assert(m3 == TokenizerModel {
        state: TokenizationState::CommentStart,
        current: Some(TokenModel::Comment(Seq::empty())),
        pos: k + 4,
        ..m0
    });
    lemma_run_step(m2);
    assert(m3.cur() == Some(x[0]));
    let m4 = step(m3, mm());
    assert(x.take(0) =~= Seq::<char>::empty());
    assert(m4 == in_comment(s, x.take(0), k + 4));
    lemma_run_step(m3);
    lemma_comment_text_run(s, k + 4, x, 0);
    let m5 = in_comment(s, x, k + 4 + x.len());
    assert(m5.cur() == Some('-'));
    let m6 = step(m5, mm());
    assert(m6 == TokenizerModel { state: TokenizationState::CommentEndDash, pos: k + 5 + x.len(), ..m5 });
    lemma_run_step(m5);
    assert(m6.cur() == Some('-'));
    let m7 = step(m6, mm());
    assert(m7 == TokenizerModel { state: TokenizationState::CommentEnd, pos: k + 6 + x.len(), ..m5 });
    lemma_run_step(m6);
    assert(m7.cur() == Some('>'));
    let m8 = step(m7, mm());
    assert(m8.output.len() == 1);
    assert(run(m7, mm()) == m8);
    let r = run(m0, mm());
    assert(r == m8);
    assert(r.output.drop_first() =~= Seq::<TokenModel>::empty());
}

/// A tokenizer in the data state at position `k` of `s`, with nothing pending.
pub open spec fn data_at(s: Seq<char>, k: nat) -> TokenizerModel {
    TokenizerModel {
        state: TokenizationState::Data,
        current: None,
        input: s,
        pos: k,
        output: Seq::empty(),
        temp_buf: Seq::empty(),
    }
}

/// Text without `<`, `&` or NUL.
pub open spec fn plain_text(s: Seq<char>) -> bool {
    forall|i: int| 0 <= i < s.len() ==> s[i] != '<' && s[i] != '&' && s[i] != '\0'
}

/// Text without `<`, `&` or NUL comes out one character token per character, in
/// order, and then end-of-file tokens: a tokenizer starts in the data state at 0, and
/// each request in the data state at `k` is answered with the `k`-th character (or end
/// of file past the text) and leaves the tokenizer in the data state at `k + 1`.
pub proof fn lemma_plain_text(s: Seq<char>, k: nat)
    requires
        plain_text(s),
        s.len() + 16 < usize::MAX,
        k + 8 < usize::MAX,
    ensures
        initial(s) == data_at(s, 0),
        can_consume(data_at(s, k)),
        after_consume(data_at(s, k)) == (data_at(s, k + 1), if k < s.len() {
            TokenModel::Character(s[k as int])
        } else {
            TokenModel::Eof
        }),
{
    let m = data_at(s, k);
    let n = step(m, mm());
    assert(n.output.len() == 1);
    assert(run(m, mm()) == n);
    assert(n.with_output(n.output.drop_first()) =~= data_at(s, k + 1));
}

impl HtmlTokenizer {
    pub fn new(html: &str) -> (t: Self)
        ensures
            t@ == initial(html@),
    {
        let chars = crate::text::chars_of(html);
        let input = TokenIterator::new(chars.as_slice());
        let t = Self {
            state: TokenizationState::Data,
            current_token: None,
            input,
            output: VecDeque::new(),
            temp_buf: Vec::new(),
        };
        assert(t@.input =~= html@);
        assert(t@.output =~= Seq::<TokenModel>::empty());
        t
    }

    /// https://html.spec.whatwg.org/multipage/parsing.html#reconsume
    fn allow_reconsume(&mut self, new_state: TokenizationState)
        requires
            old(self)@.pos >= 1,
        ensures
            final(self)@ == old(self)@.to(new_state).with_pos((old(self)@.pos - 1) as nat),
    {
        self.state = new_state;
        self.input.rewind(1);
    }

    fn create_token(&mut self, token: HtmlToken)
        ensures
            final(self)@ == old(self)@.set_cur(Some(token@)),
    {
        self.current_token = Some(token);
    }

    fn emit_token(&mut self, token: HtmlToken)
        ensures
            final(self)@ == old(self)@.emit(token@),
    {
        self.output.push_back(token);
        assert(tokens_view(self.output@) =~= tokens_view(old(self).output@).push(token@));
    }

    fn emit_tokens(&mut self, tokens: Vec<HtmlToken>)
        ensures
            final(self)@ == old(self)@.with_output(old(self)@.output + tokens_view(tokens@)),
    {
        let mut rest = tokens;
        let ghost all = rest@;
        let ghost start = self@;
        while rest.len() > 0
            invariant
                all.len() >= rest@.len(),
                rest@ == all.skip(all.len() - rest@.len()),
                self@ == start.with_output(
                    start.output + tokens_view(all.take(all.len() - rest@.len())),
                ),
            decreases rest@.len(),
        {
            let ghost k = all.len() - rest@.len();
            let t = rest.remove(0);
            assert(t == all[k]);
            self.emit_token(t);
            assert(all.take(k + 1) == all.take(k).push(all[k]));
            assert(tokens_view(all.take(k + 1)) =~= tokens_view(all.take(k)).push(all[k]@));
            assert(rest@ =~= all.skip(k + 1));
        }
        assert(all.take(all.len() as int) == all);
    }

    /// This is expected to be called by the HTML parser.
    pub fn change_state(&mut self, new_state: TokenizationState)
        ensures
            final(self)@ == old(self)@.to(new_state),
    {
        self.state = new_state;
    }
}

impl HtmlTokenizer {
    /// https://html.spec.whatwg.org/multipage/parsing.html#tokenization
    pub fn consume(&mut self) -> (t: HtmlToken)
        requires
            can_consume(old(self)@),
        ensures
            final(self)@ == after_consume(old(self)@).0,
            t@ == after_consume(old(self)@).1,
    {
        let ghost m0 = self@;
        let ghost bound: nat = if m0.pos < m0.input.len() + 6 { m0.input.len() + 6 } else { m0.pos };
        proof {
            lemma_run(m0, mm());
        }
        // Buffer the output since multiple tokens can be emitted at once.
        while self.output.len() == 0
            invariant
                run_ok(self@, mm()),
                run(self@, mm()) == run(m0, mm()),
                self@.input == m0.input,
                self@.output.len() == 0 ==> self@.pos <= bound,
                self@.pos <= bound + 1,
                bound + 8 < usize::MAX,
                bound >= m0.input.len() + 6,
                self.output@.len() == self@.output.len(),
            decreases 2 * measure(self@) + if self@.output.len() == 0 { 1int } else { 0int },
        {
            let ghost before = self@;
            proof {
                lemma_step_progress(before, mm());
            }
            match self.state {
                TokenizationState::Data => self.tokenize_data(),
                TokenizationState::RawText => self.tokenize_rawtext(),
                TokenizationState::TagOpen => self.tokenize_tag_open(),
                TokenizationState::EndTagOpen => self.tokenize_end_tag_open(),
                TokenizationState::TagName => self.tokenize_tag_name(),
                TokenizationState::RawTextLessThanSign => self.tokenize_rawtext_less_than_sign(),
                TokenizationState::RawTextEndTagOpen => self.tokenize_rawtext_end_tag_open(),
                TokenizationState::RawTextEndTagName => self.tokenize_rawtext_end_tag_name(),
                TokenizationState::BeforeAttributeName => self.tokenize_before_attr_name(),
                TokenizationState::AttributeName => self.tokenize_attr_name(),
                TokenizationState::AfterAttributeName => self.tokenize_after_attr_name(),
                TokenizationState::BeforeAttributeValue => self.tokenize_before_attr_value(),
                TokenizationState::AttributeValueDoubleQuoted => self.tokenize_attr_value_quoted('"'),
                TokenizationState::AttributeValueSingleQuoted => self.tokenize_attr_value_quoted('\''),
                TokenizationState::AttributeValueUnquoted => self.tokenize_attr_value_unquoted(),
                TokenizationState::AfterAttributeValueQuoted => self.tokenize_after_attr_value_quoted(),
                TokenizationState::SelfClosingStartTag => self.tokenize_self_closing_start_tag(),
                TokenizationState::BogusComment => self.tokenize_bogus_comment(),
                TokenizationState::MarkupDeclarationOpen => self.tokenize_markup_declaration_open(),
                TokenizationState::CommentStart => self.tokenize_comment_start(),
                TokenizationState::CommentStartDash => self.tokenize_comment_start_dash(),
                TokenizationState::Comment => self.tokenize_comment(),
                TokenizationState::CommentEndDash => self.tokenize_comment_end_dash(),
                TokenizationState::CommentEnd => self.tokenize_comment_end(),
                TokenizationState::Doctype => self.tokenize_doctype(),
                TokenizationState::BeforeDoctypeName => self.tokenize_before_doctype_name(),
                TokenizationState::DoctypeName => self.tokenize_doctype_name(),
                TokenizationState::AfterDoctypeName => self.tokenize_after_doctype_name(),
            }
            proof {
                assert(self@ == step(before, mm()));
                assert(before.pos <= bound);
                assert(before.input == m0.input);
                if self@.output.len() == 0 {
                    lemma_run(self@, mm());
                }
            }
        }
        proof {
            lemma_run(self@, mm());
        }
        let ghost r = self@;
        let t = self.output.pop_front().unwrap();
        assert(tokens_view(self.output@) =~= r.output.drop_first());
        t
    }

    /// The next character (and the cursor moved past it, also at the end).
    fn next_char(&mut self) -> (c: Option<char>)
        requires
            old(self)@.pos < usize::MAX,
        ensures
            c == old(self)@.cur(),
            final(self)@ == old(self)@.adv(),
    {
        let c = self.input.next();
        match c {
            Some(x) => Some(x),
            None => None,
        }
    }

    /// Emits a copy of the current token.
    fn emit_current(&mut self)
        requires
            old(self)@.current is Some,
        ensures
            final(self)@ == old(self)@.emit_cur(),
    {
        let t = copy_token(self.current_token.as_ref().unwrap());
        self.emit_token(t);
    }

    /// Whether the characters ahead are `word`, up to ASCII case.
    fn ahead_matches(&self, word: &[char]) -> (r: bool)
        requires
            self@.pos + word@.len() <= usize::MAX,
            word@.len() > 0,
        ensures
            r == ahead_is(self@, word@),
    {
        let chunk = self.input.peek_chunk(word.len());
        let mut i: usize = 0;
        while i < word.len()
            invariant
                i <= word@.len(),
                chunk@.len() == word@.len(),
                forall|j: int|
                    0 <= j < word@.len() ==> (match #[trigger] chunk@[j] {
                        Some(x) => self@.pos + j < self@.input.len() && *x == self@.input[self@.pos + j],
                        None => self@.pos + j >= self@.input.len(),
                    }),
                forall|j: int| 0 <= j < i ==> self@.pos + j < self@.input.len() && crate::text::ascii_lower(
                    #[trigger] self@.input[self@.pos + j],
                ) == crate::text::ascii_lower(word@[j]),
            decreases word@.len() - i,
        {
            match chunk[i] {
                Some(x) => {
                    if to_ascii_lowercase(*x) != to_ascii_lowercase(word[i]) {
                        proof {
                            if self@.pos + word@.len() <= self@.input.len() {
                                let a = self@.input.subrange(
                                    self@.pos as int,
                                    (self@.pos + word@.len()) as int,
                                );
                                assert(a[i as int] == self@.input[self@.pos + i]);
                                assert(crate::text::ascii_lower(a[i as int]) != crate::text::ascii_lower(word@[i as int]));
                            }
                        }
                        return false;
                    }
                },
                None => {
                    return false;
                },
            }
            i += 1;
        }
        proof {
            let k = word@.len() - 1;
            assert(crate::text::ascii_lower(self@.input[self@.pos + k]) == crate::text::ascii_lower(word@[k]));
            let a = self@.input.subrange(self@.pos as int, (self@.pos + word@.len()) as int);
            assert forall|j: int| 0 <= j < a.len() implies crate::text::ascii_lower(#[trigger] a[j])
                == crate::text::ascii_lower(word@[j]) by {
                assert(a[j] == self@.input[self@.pos + j]);
            }
        }
        true
    }
}

impl HtmlTokenizer {
    fn tokenize_data(&mut self)
        requires
            old(self)@.state == TokenizationState::Data,
            step_ok(old(self)@, mm()),
            old(self)@.output.len() == 0,
            old(self)@.pos + 8 < usize::MAX,
        ensures
            final(self)@ == step(old(self)@, mm()),
    {
        match self.next_char() {
            Some(c) => {
                if c == '<' {
                    self.state = TokenizationState::TagOpen;
                } else if c == '\0' {
                    self.emit_token(HtmlToken::Character('\u{FFFD}'));
                } else {
                    self.emit_token(HtmlToken::Character(c));
                }
            },
            None => {
                self.emit_token(HtmlToken::Eof);
            },
        }
    }

    fn tokenize_rawtext(&mut self)
        requires
            old(self)@.state == TokenizationState::RawText,
            step_ok(old(self)@, mm()),
            old(self)@.output.len() == 0,
            old(self)@.pos + 8 < usize::MAX,
        ensures
            final(self)@ == step(old(self)@, mm()),
    {
        match self.next_char() {
            Some(c) => {
                if c == '<' {
                    self.state = TokenizationState::RawTextLessThanSign;
                } else if c == '\0' {
                    self.emit_token(HtmlToken::Character('\u{FFFD}'));
                } else {
                    self.emit_token(HtmlToken::Character(c));
                }
            },
            None => {
                self.emit_token(HtmlToken::Eof);
            },
        }
    }

    fn tokenize_tag_open(&mut self)
        requires
            old(self)@.state == TokenizationState::TagOpen,
            step_ok(old(self)@, mm()),
            old(self)@.output.len() == 0,
            old(self)@.pos + 8 < usize::MAX,
        ensures
            final(self)@ == step(old(self)@, mm()),
    {
        match self.next_char() {
            Some(c) => {
                if c == '!' {
                    self.state = TokenizationState::MarkupDeclarationOpen;
                } else if c == '/' {
                    self.state = TokenizationState::EndTagOpen;
                } else if is_ascii_alphabetic(c) {
                    self.create_token(new_start_tag());
                    self.allow_reconsume(TokenizationState::TagName);
                } else {
                    self.allow_reconsume(TokenizationState::Data);
                    self.emit_token(HtmlToken::Character('<'));
                }
            },
            None => {
                let mut v: Vec<HtmlToken> = Vec::new();
                v.push(HtmlToken::Character('<'));
                v.push(HtmlToken::Eof);
                self.emit_tokens(v);
            },
        }
    }

    fn tokenize_end_tag_open(&mut self)
        requires
            old(self)@.state == TokenizationState::EndTagOpen,
            step_ok(old(self)@, mm()),
            old(self)@.output.len() == 0,
            old(self)@.pos + 8 < usize::MAX,
        ensures
            final(self)@ == step(old(self)@, mm()),
    {
        match self.next_char() {
            Some(c) => {
                if is_ascii_alphabetic(c) {
                    self.create_token(new_end_tag());
                    self.allow_reconsume(TokenizationState::TagName);
                } else if c == '>' {
                    self.state = TokenizationState::Data;
                } else {
                    self.create_token(HtmlToken::Comment(String::new()));
                    self.allow_reconsume(TokenizationState::BogusComment);
                }
            },
            None => {
                let mut v: Vec<HtmlToken> = Vec::new();
                v.push(HtmlToken::Character('<'));
                v.push(HtmlToken::Character('/'));
                v.push(HtmlToken::Eof);
                self.emit_tokens(v);
            },
        }
    }

    fn tokenize_tag_name(&mut self)
        requires
            old(self)@.state == TokenizationState::TagName,
            step_ok(old(self)@, mm()),
            old(self)@.output.len() == 0,
            old(self)@.pos + 8 < usize::MAX,
        ensures
            final(self)@ == step(old(self)@, mm()),
    {
        match self.next_char() {
            Some(c) => {
                if is_html_ws(c) {
                    self.state = TokenizationState::BeforeAttributeName;
                } else if c == '/' {
                    self.state = TokenizationState::SelfClosingStartTag;
                } else if c == '>' {
                    self.state = TokenizationState::Data;
                    self.emit_current();
                } else if is_ascii_uppercase(c) {
                    tok_push_tag_name(&mut self.current_token, to_ascii_lowercase(c));
                } else if c == '\0' {
                    tok_push_tag_name(&mut self.current_token, '\u{FFFD}');
                } else {
                    tok_push_tag_name(&mut self.current_token, c);
                }
            },
            None => {
                self.emit_token(HtmlToken::Eof);
            },
        }
    }

    fn tokenize_rawtext_less_than_sign(&mut self)
        requires
            old(self)@.state == TokenizationState::RawTextLessThanSign,
            step_ok(old(self)@, mm()),
            old(self)@.output.len() == 0,
            old(self)@.pos + 8 < usize::MAX,
        ensures
            final(self)@ == step(old(self)@, mm()),
    {
        match self.next_char() {
            Some('/') => {
                self.temp_buf.clear();
                self.state = TokenizationState::RawTextEndTagOpen;
            },
            _ => {
                let mut v: Vec<HtmlToken> = Vec::new();
                v.push(HtmlToken::Character('<'));
                self.emit_tokens(v);
                self.allow_reconsume(TokenizationState::RawText);
            },
        }
    }

    fn tokenize_rawtext_end_tag_open(&mut self)
        requires
            old(self)@.state == TokenizationState::RawTextEndTagOpen,
            step_ok(old(self)@, mm()),
            old(self)@.output.len() == 0,
            old(self)@.pos + 8 < usize::MAX,
        ensures
            final(self)@ == step(old(self)@, mm()),
    {
        match self.next_char() {
            Some(c) if is_ascii_alphabetic(c) => {
                self.create_token(new_end_tag());
                self.allow_reconsume(TokenizationState::RawTextEndTagName);
            },
            _ => {
                let mut v: Vec<HtmlToken> = Vec::new();
                v.push(HtmlToken::Character('<'));
                v.push(HtmlToken::Character('/'));
                self.emit_tokens(v);
                self.allow_reconsume(TokenizationState::RawText);
            },
        }
    }

    fn tokenize_rawtext_end_tag_name(&mut self)
        requires
            old(self)@.state == TokenizationState::RawTextEndTagName,
            step_ok(old(self)@, mm()),
            old(self)@.output.len() == 0,
            old(self)@.pos + 8 < usize::MAX,
        ensures
            final(self)@ == step(old(self)@, mm()),
    {
        let ghost m = self@;
        match self.next_char() {
            Some(c) if is_html_ws(c) => {
                self.state = TokenizationState::BeforeAttributeName;
            },
            Some('/') => {
                self.state = TokenizationState::SelfClosingStartTag;
            },
            Some('>') => {
                self.state = TokenizationState::Data;
                self.emit_current();
            },
            Some(c) if is_ascii(c) => {
                tok_push_end_tag_name(&mut self.current_token, to_ascii_lowercase(c));
                self.temp_buf.push(c);
            },
            _ => {
                let mut v: Vec<HtmlToken> = Vec::new();
                v.push(HtmlToken::Character('<'));
                v.push(HtmlToken::Character('/'));
                self.emit_tokens(v);
                assert(tokens_view(v@) =~= seq![TokenModel::Character('<'), TokenModel::Character('/')]);
                assert(char_tokens(m.temp_buf.take(0)) =~= Seq::<TokenModel>::empty());
                assert(self@.output =~= m.output + seq![TokenModel::Character('<'), TokenModel::Character('/')]
                    + char_tokens(m.temp_buf.take(0)));
                let mut i: usize = 0;
                while i < self.temp_buf.len()
                    invariant
                        i <= self@.temp_buf.len(),
                        self.temp_buf@.len() == self@.temp_buf.len(),
                        self@ == m.adv().with_output(
                            m.output + seq![TokenModel::Character('<'), TokenModel::Character('/')]
                                + char_tokens(m.temp_buf.take(i as int)),
                        ),
                    decreases self@.temp_buf.len() - i,
                {
                    let c = self.temp_buf[i];
                    assert(c == m.temp_buf[i as int]);
                    let ghost before = self@;
                    self.emit_token(HtmlToken::Character(c));
                    assert(m.temp_buf.take(i + 1) =~= m.temp_buf.take(i as int).push(c));
                    assert(char_tokens(m.temp_buf.take(i + 1)) =~= char_tokens(m.temp_buf.take(i as int)).push(
                        crate::html::tokenization::char_token(c),
                    ));
                    assert(self@.output =~= m.output + seq![TokenModel::Character('<'), TokenModel::Character('/')]
                        + char_tokens(m.temp_buf.take(i + 1)));
                    i += 1;
                }
                assert(m.temp_buf.take(m.temp_buf.len() as int) == m.temp_buf);
                self.allow_reconsume(TokenizationState::RawText);
            },
        }
    }

    fn tokenize_before_attr_name(&mut self)
        requires
            old(self)@.state == TokenizationState::BeforeAttributeName,
            step_ok(old(self)@, mm()),
            old(self)@.output.len() == 0,
            old(self)@.pos + 8 < usize::MAX,
        ensures
            final(self)@ == step(old(self)@, mm()),
    {
        match self.next_char() {
            Some(c) => {
                if is_html_ws(c) {
                } else if c == '/' || c == '>' {
                    self.allow_reconsume(TokenizationState::AfterAttributeName);
                } else if c == '=' {
                    tok_add_attr(&mut self.current_token, string_of_char(c), String::new());
                } else {
                    tok_add_attr(&mut self.current_token, String::new(), String::new());
                    self.allow_reconsume(TokenizationState::AttributeName);
                }
            },
            None => {
                self.allow_reconsume(TokenizationState::AfterAttributeName);
            },
        }
    }

    fn tokenize_attr_name(&mut self)
        requires
            old(self)@.state == TokenizationState::AttributeName,
            step_ok(old(self)@, mm()),
            old(self)@.output.len() == 0,
            old(self)@.pos + 8 < usize::MAX,
        ensures
            final(self)@ == step(old(self)@, mm()),
    {
        match self.next_char() {
            Some(c) => {
                if is_html_ws(c) || c == '/' || c == '>' {
                    self.allow_reconsume(TokenizationState::AfterAttributeName);
                } else if c == '=' {
                    self.state = TokenizationState::BeforeAttributeValue;
                } else if is_ascii_uppercase(c) {
                    tok_push_attr(&mut self.current_token, to_ascii_lowercase(c), false);
                } else if c == '\0' {
                    tok_push_attr(&mut self.current_token, '\u{FFFD}', false);
                } else {
                    tok_push_attr(&mut self.current_token, c, false);
                }
            },
            None => {
                self.allow_reconsume(TokenizationState::AfterAttributeName);
            },
        }
    }

    fn tokenize_after_attr_name(&mut self)
        requires
            old(self)@.state == TokenizationState::AfterAttributeName,
            step_ok(old(self)@, mm()),
            old(self)@.output.len() == 0,
            old(self)@.pos + 8 < usize::MAX,
        ensures
            final(self)@ == step(old(self)@, mm()),
    {
        match self.next_char() {
            Some(c) => {
                if is_html_ws(c) {
                } else if c == '/' {
                    self.state = TokenizationState::SelfClosingStartTag;
                } else if c == '=' {
                    self.state = TokenizationState::BeforeAttributeValue;
                } else if c == '>' {
                    self.state = TokenizationState::Data;
                    self.emit_current();
                } else {
                    tok_add_attr(&mut self.current_token, String::new(), String::new());
                    self.allow_reconsume(TokenizationState::AttributeName);
                }
            },
            None => {
                self.emit_token(HtmlToken::Eof);
            },
        }
    }

    fn tokenize_before_attr_value(&mut self)
        requires
            old(self)@.state == TokenizationState::BeforeAttributeValue,
            step_ok(old(self)@, mm()),
            old(self)@.output.len() == 0,
            old(self)@.pos + 8 < usize::MAX,
        ensures
            final(self)@ == step(old(self)@, mm()),
    {
        match self.next_char() {
            Some(c) if is_html_ws(c) => {},
            Some('"') => {
                self.state = TokenizationState::AttributeValueDoubleQuoted;
            },
            Some('\'') => {
                self.state = TokenizationState::AttributeValueSingleQuoted;
            },
            Some('>') => {
                self.state = TokenizationState::Data;
                self.emit_current();
            },
            _ => {
                self.allow_reconsume(TokenizationState::AttributeValueUnquoted);
            },
        }
    }

    /// The double-quoted (`quote` is `"`) and single-quoted (`quote` is `'`) attribute value states.
    fn tokenize_attr_value_quoted(&mut self, quote: char)
        requires
            (old(self)@.state == TokenizationState::AttributeValueDoubleQuoted && quote == '"') || (
            old(self)@.state == TokenizationState::AttributeValueSingleQuoted && quote == '\''),
            step_ok(old(self)@, mm()),
            old(self)@.output.len() == 0,
            old(self)@.pos + 8 < usize::MAX,
        ensures
            final(self)@ == step(old(self)@, mm()),
    {
        match self.next_char() {
            Some(c) => {
                if c == quote {
                    self.state = TokenizationState::AfterAttributeValueQuoted;
                } else if c == '\0' {
                    tok_push_attr(&mut self.current_token, '\u{FFFD}', true);
                } else {
                    tok_push_attr(&mut self.current_token, c, true);
                }
            },
            None => {
                self.emit_token(HtmlToken::Eof);
            },
        }
    }

    fn tokenize_attr_value_unquoted(&mut self)
        requires
            old(self)@.state == TokenizationState::AttributeValueUnquoted,
            step_ok(old(self)@, mm()),
            old(self)@.output.len() == 0,
            old(self)@.pos + 8 < usize::MAX,
        ensures
            final(self)@ == step(old(self)@, mm()),
    {
        match self.next_char() {
            Some(c) => {
                if is_html_ws(c) {
                    self.state = TokenizationState::BeforeAttributeName;
                } else if c == '>' {
                    self.state = TokenizationState::Data;
                    self.emit_current();
                } else if c == '\0' {
                    tok_push_attr(&mut self.current_token, '\u{FFFD}', true);
                } else {
                    tok_push_attr(&mut self.current_token, c, true);
                }
            },
            None => {
                self.emit_token(HtmlToken::Eof);
            },
        }
    }

    fn tokenize_after_attr_value_quoted(&mut self)
        requires
            old(self)@.state == TokenizationState::AfterAttributeValueQuoted,
            step_ok(old(self)@, mm()),
            old(self)@.output.len() == 0,
            old(self)@.pos + 8 < usize::MAX,
        ensures
            final(self)@ == step(old(self)@, mm()),
    {
        match self.next_char() {
            Some(c) => {
                if is_html_ws(c) {
                    self.state = TokenizationState::BeforeAttributeName;
                } else if c == '/' {
                    self.state = TokenizationState::SelfClosingStartTag;
                } else if c == '>' {
                    self.state = TokenizationState::Data;
                    self.emit_current();
                } else {
                    self.allow_reconsume(TokenizationState::BeforeAttributeName);
                }
            },
            None => {
                self.emit_token(HtmlToken::Eof);
            },
        }
    }

    fn tokenize_self_closing_start_tag(&mut self)
        requires
            old(self)@.state == TokenizationState::SelfClosingStartTag,
            step_ok(old(self)@, mm()),
            old(self)@.output.len() == 0,
            old(self)@.pos + 8 < usize::MAX,
        ensures
            final(self)@ == step(old(self)@, mm()),
    {
        match self.next_char() {
            Some(c) => {
                if c == '>' {
                    tok_set_self_closing(&mut self.current_token);
                    self.state = TokenizationState::Data;
                    self.emit_current();
                } else {
                    self.allow_reconsume(TokenizationState::BeforeAttributeName);
                }
            },
            None => {
                self.emit_token(HtmlToken::Eof);
            },
        }
    }

    fn tokenize_bogus_comment(&mut self)
        requires
            old(self)@.state == TokenizationState::BogusComment,
            step_ok(old(self)@, mm()),
            old(self)@.output.len() == 0,
            old(self)@.pos + 8 < usize::MAX,
        ensures
            final(self)@ == step(old(self)@, mm()),
    {
        match self.next_char() {
            Some(c) => {
                if c == '>' {
                    self.state = TokenizationState::Data;
                    self.emit_current();
                } else if c == '\0' {
                    tok_push_comment(&mut self.current_token, '\u{FFFD}');
                } else {
                    tok_push_comment(&mut self.current_token, c);
                }
            },
            None => {
                self.emit_current();
                self.emit_token(HtmlToken::Eof);
            },
        }
    }

    fn tokenize_markup_declaration_open(&mut self)
        requires
            old(self)@.state == TokenizationState::MarkupDeclarationOpen,
            step_ok(old(self)@, mm()),
            old(self)@.output.len() == 0,
            old(self)@.pos + 8 < usize::MAX,
        ensures
            final(self)@ == step(old(self)@, mm()),
    {
        let two: [char; 2] = ['-', '-'];
        let seven: [char; 7] = ['D', 'O', 'C', 'T', 'Y', 'P', 'E'];
        assert(two@ =~= dashes());
        assert(seven@ =~= doctype_word());
        if self.ahead_matches(&two) {
            self.input.forward(2);
            self.create_token(HtmlToken::Comment(String::new()));
            self.state = TokenizationState::CommentStart;
        } else if self.ahead_matches(&seven) {
            self.input.forward(7);
            self.state = TokenizationState::Doctype;
        } else {
            self.create_token(HtmlToken::Comment(String::new()));
            self.state = TokenizationState::BogusComment;
        }
    }

    fn tokenize_comment_start(&mut self)
        requires
            old(self)@.state == TokenizationState::CommentStart,
            step_ok(old(self)@, mm()),
            old(self)@.output.len() == 0,
            old(self)@.pos + 8 < usize::MAX,
        ensures
            final(self)@ == step(old(self)@, mm()),
    {
        match self.next_char() {
            Some('-') => {
                self.state = TokenizationState::CommentStartDash;
            },
            Some('>') => {
                self.state = TokenizationState::Data;
                self.emit_current();
            },
            _ => {
                self.allow_reconsume(TokenizationState::Comment);
            },
        }
    }

    fn tokenize_comment_start_dash(&mut self)
        requires
            old(self)@.state == TokenizationState::CommentStartDash,
            step_ok(old(self)@, mm()),
            old(self)@.output.len() == 0,
            old(self)@.pos + 8 < usize::MAX,
        ensures
            final(self)@ == step(old(self)@, mm()),
    {
        match self.next_char() {
            Some(c) => {
                if c == '-' {
                    self.state = TokenizationState::CommentEnd;
                } else if c == '>' {
                    self.state = TokenizationState::Data;
                    self.emit_current();
                } else {
                    tok_push_comment(&mut self.current_token, '-');
                    self.allow_reconsume(TokenizationState::Comment);
                }
            },
            None => {
                self.emit_current();
                self.emit_token(HtmlToken::Eof);
            },
        }
    }

    fn tokenize_comment(&mut self)
        requires
            old(self)@.state == TokenizationState::Comment,
            step_ok(old(self)@, mm()),
            old(self)@.output.len() == 0,
            old(self)@.pos + 8 < usize::MAX,
        ensures
            final(self)@ == step(old(self)@, mm()),
    {
        match self.next_char() {
            Some(c) => {
                if c == '-' {
                    self.state = TokenizationState::CommentEndDash;
                } else if c == '\0' {
                    tok_push_comment(&mut self.current_token, '\u{FFFD}');
                } else {
                    tok_push_comment(&mut self.current_token, c);
                }
            },
            None => {
                self.emit_current();
                self.emit_token(HtmlToken::Eof);
            },
        }
    }

    fn tokenize_comment_end_dash(&mut self)
        requires
            old(self)@.state == TokenizationState::CommentEndDash,
            step_ok(old(self)@, mm()),
            old(self)@.output.len() == 0,
            old(self)@.pos + 8 < usize::MAX,
        ensures
            final(self)@ == step(old(self)@, mm()),
    {
        match self.next_char() {
            Some(c) => {
                if c == '-' {
                    self.state = TokenizationState::CommentEnd;
                } else {
                    tok_push_comment(&mut self.current_token, '-');
                    self.allow_reconsume(TokenizationState::Comment);
                }
            },
            None => {
                self.emit_current();
                self.emit_token(HtmlToken::Eof);
            },
        }
    }

    fn tokenize_comment_end(&mut self)
        requires
            old(self)@.state == TokenizationState::CommentEnd,
            step_ok(old(self)@, mm()),
            old(self)@.output.len() == 0,
            old(self)@.pos + 8 < usize::MAX,
        ensures
            final(self)@ == step(old(self)@, mm()),
    {
        match self.next_char() {
            Some(c) => {
                if c == '>' {
                    self.state = TokenizationState::Data;
                    self.emit_current();
                } else if c == '-' {
                    tok_push_comment(&mut self.current_token, '-');
                } else {
                    let ghost t0 = opt_token_view(self.current_token);
                    tok_push_comment(&mut self.current_token, '-');
                    tok_push_comment(&mut self.current_token, '-');
                    tok_push_comment(&mut self.current_token, c);
                    assert(seq!['-'] + seq!['-'] + seq![c] =~= seq!['-', '-', c]);
                    proof {
                        match t0 {
                            Some(TokenModel::Comment(d)) => {
                                assert(d + seq!['-'] + seq!['-'] + seq![c] =~= d + seq!['-', '-', c]);
                            },
                            _ => {},
                        }
                    }
                    self.allow_reconsume(TokenizationState::Comment);
                }
            },
            None => {
                self.emit_current();
                self.emit_token(HtmlToken::Eof);
            },
        }
    }

    fn tokenize_doctype(&mut self)
        requires
            old(self)@.state == TokenizationState::Doctype,
            step_ok(old(self)@, mm()),
            old(self)@.output.len() == 0,
            old(self)@.pos + 8 < usize::MAX,
        ensures
            final(self)@ == step(old(self)@, mm()),
    {
        match self.next_char() {
            Some(c) => {
                if is_html_ws(c) {
                    self.state = TokenizationState::BeforeDoctypeName;
                } else {
                    self.allow_reconsume(TokenizationState::BeforeDoctypeName);
                }
            },
            None => {
                self.create_token(new_doctype(None, true));
                self.emit_current();
                self.emit_token(HtmlToken::Eof);
            },
        }
    }

    fn tokenize_before_doctype_name(&mut self)
        requires
            old(self)@.state == TokenizationState::BeforeDoctypeName,
            step_ok(old(self)@, mm()),
            old(self)@.output.len() == 0,
            old(self)@.pos + 8 < usize::MAX,
        ensures
            final(self)@ == step(old(self)@, mm()),
    {
        match self.next_char() {
            Some(c) => {
                if is_html_ws(c) {
                } else if is_ascii_uppercase(c) {
                    self.create_token(new_doctype(Some(string_of_char(to_ascii_lowercase(c))), false));
                    self.state = TokenizationState::DoctypeName;
                } else if c == '\0' {
                    self.create_token(new_doctype(Some(string_of_char('\u{FFFD}')), false));
                    self.state = TokenizationState::DoctypeName;
                } else if c == '>' {
                    self.create_token(new_doctype(None, true));
                    self.state = TokenizationState::Data;
                    self.emit_current();
                } else {
                    self.create_token(new_doctype(Some(string_of_char(c)), false));
                    self.state = TokenizationState::DoctypeName;
                }
            },
            None => {
                self.create_token(new_doctype(None, true));
                self.emit_current();
                self.emit_token(HtmlToken::Eof);
            },
        }
    }

    fn tokenize_doctype_name(&mut self)
        requires
            old(self)@.state == TokenizationState::DoctypeName,
            step_ok(old(self)@, mm()),
            old(self)@.output.len() == 0,
            old(self)@.pos + 8 < usize::MAX,
        ensures
            final(self)@ == step(old(self)@, mm()),
    {
        match self.next_char() {
            Some(c) => {
                if is_html_ws(c) {
                    self.state = TokenizationState::AfterDoctypeName;
                } else if c == '>' {
                    self.state = TokenizationState::Data;
                    self.emit_current();
                } else if is_ascii_uppercase(c) {
                    tok_push_doctype_name(&mut self.current_token, to_ascii_lowercase(c));
                } else if c == '\0' {
                    tok_push_doctype_name(&mut self.current_token, '\u{FFFD}');
                } else {
                    tok_push_doctype_name(&mut self.current_token, c);
                }
            },
            None => {
                tok_set_force_quirks(&mut self.current_token);
                self.emit_current();
                self.emit_token(HtmlToken::Eof);
            },
        }
    }

    fn tokenize_after_doctype_name(&mut self)
        requires
            old(self)@.state == TokenizationState::AfterDoctypeName,
            step_ok(old(self)@, mm()),
            old(self)@.output.len() == 0,
            old(self)@.pos + 8 < usize::MAX,
        ensures
            final(self)@ == step(old(self)@, mm()),
    {
        match self.next_char() {
            Some(c) => {
                if c == '>' {
                    self.state = TokenizationState::Data;
                    self.emit_current();
                }
            },
            None => {
                tok_set_force_quirks(&mut self.current_token);
                self.emit_current();
                self.emit_token(HtmlToken::Eof);
            },
        }
    }
}

/// Tab, line feed, form feed or space.
pub(crate) fn is_html_ws(c: char) -> (r: bool)
    ensures
        r == html_ws(c),
{
    c == '\t' || c == '\n' || c == '\u{000C}' || c == ' '
}

} // verus!
