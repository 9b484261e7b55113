//! The abstract model of tree construction:
//! https://html.spec.whatwg.org/multipage/parsing.html#tree-construction
//!
//! The state of the parser as a mathematical value, what one token does to it in
//! each insertion mode, and the run of the parser over the tokens of its input.
use vstd::prelude::*;

use crate::css::cssom::RuleModel;
use crate::css::parsing::{Parsed, rules};
use crate::css::tokenization::{Lexing, tokens_from};
use crate::html::dom::{KindView, NodeView, append_view, last_of};
use crate::html::parser::InsertionMode;
use crate::html::token::{TokenizationState, after_consume, can_consume, mm};
use crate::html::tokenization::{
    TokenModel, TokenizerModel, eof_queued, lemma_run, lemma_run_potential, potential, run, tok_inv,
};

verus! {

broadcast use vstd::seq::group_seq_axioms;

/// Why a parse fails.
pub enum ParseFailure {
    /// The HTML does not fit the tree construction rules.
    HtmlParse,
    /// A style sheet holds a comment that is not closed.
    UnterminatedComment,
    /// A style sheet holds a selector that does not fit the selector grammar.
    InvalidSelector,
}

/// The state of a parser as a mathematical value.
pub struct ParserModel {
    pub mode: InsertionMode,
    pub orig_mode: Option<InsertionMode>,
    pub tok: TokenizerModel,
    /// The stack of open elements, as indices into `nodes`.
    pub stack: Seq<usize>,
    /// The nodes of the document; the document node comes first.
    pub nodes: Seq<NodeView>,
    pub title: Option<Seq<char>>,
    pub sheets: Seq<Seq<RuleModel>>,
    pub done: bool,
    pub reprocess: bool,
}

/// What one token does to the parser.
pub enum Step {
    Next(ParserModel),
    Fail(ParseFailure),
    /// The token is one that tree construction does not support.
    Unsupported,
}

/// How a parse run ends.
pub enum Outcome {
    Finished(ParserModel),
    Failed(ParseFailure),
    Unsupported,
    /// The run has not ended within the steps allowed.
    Pending,
}

/// Tab, line feed, form feed, carriage return and space.
pub open spec fn blank(c: char) -> bool {
    c == '\t' || c == '\n' || c == '\u{000C}' || c == '\r' || c == ' '
}

/// `h1` to `h6`.
pub open spec fn is_heading(t: Seq<char>) -> bool {
    t == "h1"@ || t == "h2"@ || t == "h3"@ || t == "h4"@ || t == "h5"@ || t == "h6"@
}

/// The current node: the last entry of the stack of open elements.
pub open spec fn current(pm: ParserModel) -> Option<usize> {
    if pm.stack.len() > 0 {
        Some(pm.stack.last())
    } else {
        None
    }
}

/// The tag name of the current node, if it is an element.
pub open spec fn current_elm_name(pm: ParserModel) -> Option<Seq<char>> {
    match current(pm) {
        Some(n) => if 0 <= n < pm.nodes.len() {
            match pm.nodes[n as int].kind {
                KindView::Element(tag, _) => Some(tag),
                _ => None,
            }
        } else {
            None
        },
        None => None,
    }
}

/// The stack of open elements without its last entry (unchanged if it is empty).
pub open spec fn pop(pm: ParserModel) -> ParserModel {
    if pm.stack.len() > 0 {
        ParserModel { stack: pm.stack.drop_last(), ..pm }
    } else {
        pm
    }
}

/// A node of kind `k` appended to node `n`; `None` where the arena is full.
pub open spec fn append_to(pm: ParserModel, n: usize, k: KindView) -> Option<ParserModel> {
    if 0 <= n < pm.nodes.len() && pm.nodes.len() + 1 < usize::MAX {
        Some(ParserModel { nodes: append_view(pm.nodes, n as int, k), ..pm })
    } else {
        None
    }
}

/// A node of kind `k` appended to the current node.
pub open spec fn append_to_current(pm: ParserModel, k: KindView) -> Option<ParserModel> {
    match current(pm) {
        Some(n) => append_to(pm, n, k),
        None => None,
    }
}

/// https://html.spec.whatwg.org/multipage/parsing.html#insert-an-html-element
pub open spec fn insert_element(pm: ParserModel, tag: Seq<char>, attrs: Seq<(Seq<char>, Seq<char>)>) -> Option<ParserModel> {
    match append_to_current(pm, KindView::Element(tag, attrs)) {
        Some(p2) => Some(ParserModel { stack: p2.stack.push(pm.nodes.len() as usize), ..p2 }),
        None => None,
    }
}

/// An element appended to the document node and pushed on the stack.
pub open spec fn insert_root_element(pm: ParserModel, tag: Seq<char>, attrs: Seq<(Seq<char>, Seq<char>)>) -> Option<ParserModel> {
    match append_to(pm, 0, KindView::Element(tag, attrs)) {
        Some(p2) => Some(ParserModel { stack: p2.stack.push(pm.nodes.len() as usize), ..p2 }),
        None => None,
    }
}

/// https://html.spec.whatwg.org/multipage/parsing.html#insert-a-character: appended to
/// the last child of the current node where that is a text node, else in a new text node.
pub open spec fn insert_char(pm: ParserModel, c: char) -> Option<ParserModel> {
    match current(pm) {
        None => None,
        Some(n) => if 0 <= n < pm.nodes.len() {
            let cs = pm.nodes[n as int].children;
            if cs.len() > 0 && 0 <= cs.last() < pm.nodes.len() && pm.nodes[cs.last() as int].kind is Text {
                let l = cs.last() as int;
                let text = pm.nodes[l].kind->Text_0;
                Some(ParserModel {
                    nodes: pm.nodes.update(l, NodeView { kind: KindView::Text(text.push(c)), ..pm.nodes[l] }),
                    ..pm
                })
            } else {
                append_to(pm, n, KindView::Text(seq![c]))
            }
        } else {
            None
        },
    }
}

/// The end tags that are implied: https://html.spec.whatwg.org/multipage/parsing.html#generate-implied-end-tags
pub open spec fn implied_end_tag(t: Seq<char>) -> bool {
    t == "dd"@ || t == "dt"@ || t == "li"@ || t == "optgroup"@ || t == "option"@ || t == "p"@ || t == "rb"@
        || t == "rp"@ || t == "rt"@ || t == "rtc"@
}

/// Pops the current node while it is an element whose end tag is implied (other than
/// `excluded`); `None` where the current node is missing or is not an element.
pub open spec fn implied_end_tags(pm: ParserModel, excluded: Option<Seq<char>>) -> Option<ParserModel>
    decreases pm.stack.len(),
{
    match current_elm_name(pm) {
        None => None,
        Some(name) => if implied_end_tag(name) && excluded != Some(name) {
            implied_end_tags(pop(pm), excluded)
        } else {
            Some(pm)
        },
    }
}

/// The node at index `n` is an element whose tag name satisfies `f`.
pub open spec fn element_with(nodes: Seq<NodeView>, n: usize, f: spec_fn(Seq<char>) -> bool) -> bool {
    0 <= n < nodes.len() && (nodes[n as int].kind matches KindView::Element(tag, _) && f(tag))
}

/// Pops entries off `stack` up to and including the first element whose tag name
/// satisfies `f`; `None` where the stack runs out first.
pub open spec fn pop_through(nodes: Seq<NodeView>, stack: Seq<usize>, f: spec_fn(Seq<char>) -> bool) -> Option<Seq<usize>>
    decreases stack.len(),
{
    if stack.len() == 0 {
        None
    } else if element_with(nodes, stack.last(), f) {
        Some(stack.drop_last())
    } else {
        pop_through(nodes, stack.drop_last(), f)
    }
}

/// A step that changes nothing.
pub open spec fn same(pm: ParserModel) -> Step {
    Step::Next(pm)
}

/// The step of a helper that gives `None` where the token is not supported.
pub open spec fn step_of(o: Option<ParserModel>) -> Step {
    match o {
        Some(p) => Step::Next(p),
        None => Step::Unsupported,
    }
}

/// `pm` in insertion mode `m`.
pub open spec fn to(pm: ParserModel, m: InsertionMode) -> ParserModel {
    ParserModel { mode: m, ..pm }
}

/// `pm` in insertion mode `m`, with the token to be processed again.
pub open spec fn again(pm: ParserModel, m: InsertionMode) -> ParserModel {
    ParserModel { mode: m, reprocess: true, ..pm }
}

/// `Step::Next` of `o` in insertion mode `m`, or `Unsupported`.
pub open spec fn then_to(o: Option<ParserModel>, m: InsertionMode) -> Step {
    match o {
        Some(p) => Step::Next(to(p, m)),
        None => Step::Unsupported,
    }
}

/// `Step::Next` of `o` in insertion mode `m` with the token processed again, or `Unsupported`.
pub open spec fn then_again(o: Option<ParserModel>, m: InsertionMode) -> Step {
    match o {
        Some(p) => Step::Next(again(p, m)),
        None => Step::Unsupported,
    }
}

/// https://html.spec.whatwg.org/multipage/parsing.html#the-initial-insertion-mode
pub open spec fn in_initial(pm: ParserModel, t: TokenModel) -> Step {
    match t {
        TokenModel::Character(c) if blank(c) => same(pm),
        TokenModel::Comment(_) => Step::Unsupported,
        TokenModel::Doctype { name, public_identifier, system_identifier, .. } => {
            if (name is Some && name != Some("html"@)) || public_identifier is Some || (
            system_identifier is Some && system_identifier != Some("about:legacy-compat"@)) {
                Step::Fail(ParseFailure::HtmlParse)
            } else {
                let text = match name {
                    Some(n) => n,
                    None => Seq::empty(),
                };
                then_to(append_to(pm, 0, KindView::DocumentType(text)), InsertionMode::BeforeHtml)
            }
        },
        _ => Step::Next(again(pm, InsertionMode::BeforeHtml)),
    }
}

/// https://html.spec.whatwg.org/multipage/parsing.html#the-before-html-insertion-mode
pub open spec fn in_before_html(pm: ParserModel, t: TokenModel) -> Step {
    match t {
        TokenModel::Doctype { .. } => same(pm),
        TokenModel::Character(c) if blank(c) => same(pm),
        TokenModel::StartTag { tag_name, attributes, .. } if tag_name == "html"@ => then_to(
            insert_root_element(pm, tag_name, attributes),
            InsertionMode::BeforeHead,
        ),
        TokenModel::EndTag { tag_name, .. } => if tag_name == "head"@ || tag_name == "body"@ || tag_name
            == "html"@ || tag_name == "br"@ {
            then_to(insert_root_element(pm, "html"@, Seq::empty()), InsertionMode::BeforeHead)
        } else {
            same(pm)
        },
        _ => then_again(insert_root_element(pm, "html"@, Seq::empty()), InsertionMode::BeforeHead),
    }
}

/// https://html.spec.whatwg.org/multipage/parsing.html#the-before-head-insertion-mode
pub open spec fn in_before_head(pm: ParserModel, t: TokenModel) -> Step {
    match t {
        TokenModel::Character(c) if blank(c) => same(pm),
        TokenModel::Doctype { .. } => same(pm),
        TokenModel::StartTag { tag_name, attributes, .. } => if tag_name == "head"@ {
            then_to(insert_element(pm, tag_name, attributes), InsertionMode::InHead)
        } else if tag_name == "html"@ {
            Step::Unsupported
        } else {
            then_again(insert_element(pm, "head"@, Seq::empty()), InsertionMode::InHead)
        },
        TokenModel::EndTag { tag_name, .. } => if tag_name == "head"@ || tag_name == "body"@ || tag_name
            == "html"@ || tag_name == "br"@ {
            then_again(insert_element(pm, tag_name, Seq::empty()), InsertionMode::InHead)
        } else {
            same(pm)
        },
        _ => then_again(insert_element(pm, "head"@, Seq::empty()), InsertionMode::InHead),
    }
}

/// https://html.spec.whatwg.org/multipage/parsing.html#parsing-main-inhead
pub open spec fn in_head(pm: ParserModel, t: TokenModel) -> Step {
    match t {
        TokenModel::Character(c) if blank(c) => step_of(insert_char(pm, c)),
        TokenModel::Comment(s) => step_of(append_to_current(pm, KindView::Comment(s))),
        TokenModel::Doctype { .. } => same(pm),
        TokenModel::StartTag { tag_name, attributes, .. } => if tag_name == "meta"@ {
            step_of(append_to_current(pm, KindView::Element(tag_name, attributes)))
        } else if tag_name == "title"@ {
            match insert_element(pm, tag_name, attributes) {
                Some(p) => Step::Next(ParserModel { orig_mode: Some(InsertionMode::InHead), ..to(p, InsertionMode::Text) }),
                None => Step::Unsupported,
            }
        } else if tag_name == "style"@ {
            match insert_element(pm, tag_name, attributes) {
                Some(p) => Step::Next(
                    ParserModel {
                        orig_mode: Some(InsertionMode::InHead),
                        tok: p.tok.to(TokenizationState::RawText),
                        ..to(p, InsertionMode::Text)
                    },
                ),
                None => Step::Unsupported,
            }
        } else if tag_name == "head"@ {
            same(pm)
        } else if tag_name == "html"@ || tag_name == "template"@ || tag_name == "noscript"@ || tag_name
            == "script"@ || tag_name == "noframes"@ || tag_name == "base"@ || tag_name == "basefont"@
            || tag_name == "bgsound"@ || tag_name == "link"@ {
            Step::Unsupported
        } else {
            Step::Next(again(pop(pm), InsertionMode::AfterHead))
        },
        TokenModel::EndTag { tag_name, .. } => if tag_name == "head"@ {
            match current(pm) {
                None => Step::Unsupported,
                Some(n) => if element_with(pm.nodes, n, |tag: Seq<char>| tag == "head"@) {
                    Step::Next(to(pop(pm), InsertionMode::AfterHead))
                } else {
                    Step::Fail(ParseFailure::HtmlParse)
                },
            }
        } else {
            Step::Unsupported
        },
        _ => Step::Next(again(pop(pm), InsertionMode::AfterHead)),
    }
}

/// https://html.spec.whatwg.org/multipage/parsing.html#the-after-head-insertion-mode
pub open spec fn in_after_head(pm: ParserModel, t: TokenModel) -> Step {
    match t {
        TokenModel::Character(c) if blank(c) => step_of(insert_char(pm, c)),
        TokenModel::Doctype { .. } => same(pm),
        TokenModel::StartTag { tag_name, attributes, .. } => if tag_name == "body"@ {
            then_to(insert_element(pm, tag_name, attributes), InsertionMode::InBody)
        } else if tag_name == "frameset"@ {
            then_to(insert_element(pm, tag_name, attributes), InsertionMode::InFrameset)
        } else if tag_name == "head"@ {
            same(pm)
        } else if tag_name == "html"@ || tag_name == "base"@ || tag_name == "basefont"@ || tag_name
            == "bgsound"@ || tag_name == "link"@ || tag_name == "meta"@ || tag_name == "noframes"@
            || tag_name == "script"@ || tag_name == "style"@ || tag_name == "template"@ || tag_name
            == "title"@ {
            Step::Unsupported
        } else {
            then_again(insert_element(pm, "body"@, Seq::empty()), InsertionMode::InBody)
        },
        TokenModel::EndTag { .. } => Step::Unsupported,
        _ => then_again(insert_element(pm, "body"@, Seq::empty()), InsertionMode::InBody),
    }
}

/// An open `li` closed (implied end tags first, then the stack popped through the
/// `li`), and the new `li` inserted.
pub open spec fn close_li_then_insert(pm: ParserModel, tag_name: Seq<char>, attributes: Seq<(Seq<char>, Seq<char>)>) -> Step {
    match implied_end_tags(pm, Some("li"@)) {
        None => Step::Unsupported,
        Some(p) => if current_elm_name(p) is None {
            Step::Unsupported
        } else {
            match pop_through(p.nodes, p.stack, |tag: Seq<char>| tag == "li"@) {
                None => Step::Fail(ParseFailure::HtmlParse),
                Some(st) => step_of(insert_element(ParserModel { stack: st, ..p }, tag_name, attributes)),
            }
        },
    }
}

/// `address`, `div` or `p`.
pub open spec fn is_adp(t: Seq<char>) -> bool {
    t == "address"@ || t == "div"@ || t == "p"@
}

/// The `li` start tag: an open `li` is closed first, looking through one `address`,
/// `div` or `p` element (another such element under it makes the parser loop).
pub open spec fn in_body_li(pm: ParserModel, tag_name: Seq<char>, attributes: Seq<(Seq<char>, Seq<char>)>) -> Step {
    match current_elm_name(pm) {
        None => Step::Unsupported,
        Some(name) => if name == "li"@ {
            close_li_then_insert(pm, tag_name, attributes)
        } else if is_adp(name) {
            if pm.stack.len() < 2 {
                Step::Unsupported
            } else {
                let n = pm.stack[pm.stack.len() - 2];
                if !(0 <= n < pm.nodes.len()) {
                    Step::Unsupported
                } else {
                    match pm.nodes[n as int].kind {
                        KindView::Element(name2, _) => if name2 == "li"@ {
                            close_li_then_insert(pm, tag_name, attributes)
                        } else if is_adp(name2) {
                            Step::Unsupported
                        } else {
                            step_of(insert_element(pm, tag_name, attributes))
                        },
                        _ => Step::Fail(ParseFailure::HtmlParse),
                    }
                }
            }
        } else {
            step_of(insert_element(pm, tag_name, attributes))
        },
    }
}

/// The end tag of an element that must be open: implied end tags first, then the
/// stack is popped through the first element whose tag name satisfies `f`.
pub open spec fn close_element(pm: ParserModel, excluded: Option<Seq<char>>, f: spec_fn(Seq<char>) -> bool) -> Step {
    match implied_end_tags(pm, excluded) {
        None => Step::Unsupported,
        Some(p) => if current_elm_name(p) is None {
            Step::Unsupported
        } else {
            match pop_through(p.nodes, p.stack, f) {
                None => Step::Fail(ParseFailure::HtmlParse),
                Some(st) => Step::Next(ParserModel { stack: st, ..p }),
            }
        },
    }
}

/// A start tag in body.
pub open spec fn in_body_start_tag(pm: ParserModel, tag_name: Seq<char>, attributes: Seq<(Seq<char>, Seq<char>)>) -> Step {
    if tag_name == "a"@ || tag_name == "div"@ || tag_name == "p"@ || tag_name == "ul"@ {
        step_of(insert_element(pm, tag_name, attributes))
    } else if is_heading(tag_name) {
        let p = if current_elm_name(pm) matches Some(n) && is_heading(n) {
            pop(pm)
        } else {
            pm
        };
        step_of(insert_element(p, tag_name, attributes))
    } else if tag_name == "li"@ {
        in_body_li(pm, tag_name, attributes)
    } else if tag_name == "br"@ {
        match insert_element(pm, tag_name, attributes) {
            Some(p) => Step::Next(pop(p)),
            None => Step::Unsupported,
        }
    } else {
        Step::Unsupported
    }
}

/// An end tag in body.
pub open spec fn in_body_end_tag(pm: ParserModel, tag_name: Seq<char>) -> Step {
    if tag_name == "a"@ {
        if current_elm_name(pm) is None {
            Step::Unsupported
        } else {
            match pop_through(pm.nodes, pm.stack, |tag: Seq<char>| tag == "a"@) {
                None => Step::Fail(ParseFailure::HtmlParse),
                Some(st) => Step::Next(ParserModel { stack: st, ..pm }),
            }
        }
    } else if tag_name == "body"@ {
        Step::Next(to(pm, InsertionMode::AfterBody))
    } else if tag_name == "div"@ || tag_name == "ul"@ {
        match implied_end_tags(pm, None) {
            None => Step::Unsupported,
            Some(p) => if current_elm_name(p) is None {
                Step::Unsupported
            } else {
                let st = match pop_through(p.nodes, p.stack, |tag: Seq<char>| tag == tag_name) {
                    Some(st) => st,
                    None => Seq::empty(),
                };
                Step::Next(ParserModel { stack: st, ..p })
            },
        }
    } else if tag_name == "p"@ {
        close_element(pm, Some("p"@), |tag: Seq<char>| tag == "p"@)
    } else if tag_name == "li"@ {
        close_element(pm, Some("li"@), |tag: Seq<char>| tag == "li"@)
    } else if is_heading(tag_name) {
        close_element(pm, None, |tag: Seq<char>| is_heading(tag))
    } else {
        Step::Unsupported
    }
}

/// https://html.spec.whatwg.org/multipage/parsing.html#parsing-main-inbody
pub open spec fn in_body(pm: ParserModel, t: TokenModel) -> Step {
    match t {
        TokenModel::Character(c) => if c == '\u{0000}' {
            same(pm)
        } else {
            step_of(insert_char(pm, c))
        },
        TokenModel::Comment(s) => step_of(append_to_current(pm, KindView::Comment(s))),
        TokenModel::Doctype { .. } => same(pm),
        TokenModel::StartTag { tag_name, attributes, .. } => in_body_start_tag(pm, tag_name, attributes),
        TokenModel::EndTag { tag_name, .. } => in_body_end_tag(pm, tag_name),
        TokenModel::Eof => Step::Next(ParserModel { done: true, ..pm }),
    }
}

/// The style sheet parsed from the text `css`.
pub open spec fn style_sheet(css: Seq<char>) -> Result<Seq<RuleModel>, Option<ParseFailure>> {
    if css.len() + 8 >= usize::MAX {
        Err(None)
    } else {
        match tokens_from(css, 0) {
            Lexing::Tokens(ts) => if 2 * ts.len() + 8 >= usize::MAX {
                Err(None)
            } else {
                match rules(ts, 0) {
                    Parsed::Done(rs, _) => Ok(rs),
                    Parsed::InvalidSelector => Err(Some(ParseFailure::InvalidSelector)),
                    Parsed::Unsupported => Err(None),
                }
            },
            Lexing::UnterminatedComment => Err(Some(ParseFailure::UnterminatedComment)),
            Lexing::Unsupported => Err(None),
        }
    }
}

/// https://html.spec.whatwg.org/multipage/semantics.html#update-a-style-block: the text
/// of the last child of the style element `n`, if it is a text node, is parsed as a style sheet.
pub open spec fn update_style_block(pm: ParserModel, n: usize) -> Step {
    let cs = pm.nodes[n as int].children;
    if cs.len() == 0 || !(0 <= cs.last() < pm.nodes.len()) {
        Step::Unsupported
    } else {
        match pm.nodes[cs.last() as int].kind {
            KindView::Text(css) => match style_sheet(css) {
                Ok(rs) => Step::Next(ParserModel { sheets: pm.sheets.push(rs), ..pm }),
                Err(Some(f)) => Step::Fail(f),
                Err(None) => Step::Unsupported,
            },
            _ => Step::Next(pm),
        }
    }
}

/// The text that a comment, document type or text node holds.
pub open spec fn inside_text(k: KindView) -> Option<Seq<char>> {
    match k {
        KindView::Comment(s) | KindView::DocumentType(s) | KindView::Text(s) => Some(s),
        _ => None,
    }
}

/// The end tag of the element whose text is being read: the title is taken from a
/// `title`, a `style` element's text is parsed, and the original mode comes back.
pub open spec fn end_text(pm: ParserModel, tag_name: Seq<char>) -> Step {
    match current(pm) {
        None => Step::Unsupported,
        Some(n) => if !(0 <= n < pm.nodes.len()) {
            Step::Unsupported
        } else {
            let p1 = pop(pm);
            let titled = if tag_name == "title"@ {
                let cs = pm.nodes[n as int].children;
                if cs.len() == 0 || !(0 <= cs[0] < pm.nodes.len()) {
                    None
                } else {
                    match inside_text(pm.nodes[cs[0] as int].kind) {
                        Some(text) => Some(ParserModel { title: Some(text), ..p1 }),
                        None => None,
                    }
                }
            } else {
                Some(p1)
            };
            match titled {
                None => Step::Unsupported,
                Some(p2) => {
                    let styled = if tag_name == "style"@ {
                        update_style_block(p2, n)
                    } else {
                        Step::Next(p2)
                    };
                    match styled {
                        Step::Next(p3) => match pm.orig_mode {
                            Some(m) => Step::Next(to(p3, m)),
                            None => Step::Unsupported,
                        },
                        other => other,
                    }
                },
            }
        },
    }
}

/// https://html.spec.whatwg.org/multipage/parsing.html#parsing-main-incdata
pub open spec fn in_text(pm: ParserModel, t: TokenModel) -> Step {
    match t {
        TokenModel::Character(c) => if c == '\u{0000}' {
            Step::Unsupported
        } else {
            step_of(insert_char(pm, c))
        },
        TokenModel::EndTag { tag_name, .. } if tag_name != "script"@ => end_text(pm, tag_name),
        _ => Step::Unsupported,
    }
}

/// https://html.spec.whatwg.org/multipage/parsing.html#parsing-main-afterbody
pub open spec fn in_after_body(pm: ParserModel, t: TokenModel) -> Step {
    match t {
        TokenModel::Character(c) => if blank(c) {
            step_of(insert_char(pm, c))
        } else {
            same(pm)
        },
        TokenModel::Doctype { .. } => same(pm),
        TokenModel::EndTag { tag_name, .. } if tag_name == "html"@ => Step::Next(
            to(pm, InsertionMode::AfterAfterBody),
        ),
        TokenModel::Eof => Step::Next(ParserModel { done: true, ..pm }),
        _ => Step::Unsupported,
    }
}

/// https://html.spec.whatwg.org/multipage/parsing.html#the-after-after-body-insertion-mode
pub open spec fn in_after_after_body(pm: ParserModel, t: TokenModel) -> Step {
    match t {
        TokenModel::Doctype { .. } => same(pm),
        TokenModel::Character(c) if blank(c) => step_of(insert_char(pm, c)),
        TokenModel::StartTag { tag_name, .. } if tag_name == "html"@ => Step::Unsupported,
        TokenModel::Eof => Step::Next(ParserModel { done: true, ..pm }),
        _ => Step::Next(ParserModel { mode: InsertionMode::InBody, done: true, ..pm }),
    }
}

/// What the token does in the current insertion mode.
pub open spec fn dispatch(pm: ParserModel, t: TokenModel) -> Step {
    match pm.mode {
        InsertionMode::Initial => in_initial(pm, t),
        InsertionMode::BeforeHtml => in_before_html(pm, t),
        InsertionMode::BeforeHead => in_before_head(pm, t),
        InsertionMode::InHead => in_head(pm, t),
        InsertionMode::AfterHead => in_after_head(pm, t),
        InsertionMode::InBody => in_body(pm, t),
        InsertionMode::Text => in_text(pm, t),
        InsertionMode::AfterBody => in_after_body(pm, t),
        InsertionMode::AfterAfterBody => in_after_after_body(pm, t),
        InsertionMode::InFrameset => Step::Unsupported,
    }
}

/// How many insertion modes can hand a token on before one keeps it.
pub open spec fn mode_rank(m: InsertionMode) -> nat {
    match m {
        InsertionMode::Initial => 5,
        InsertionMode::BeforeHtml => 4,
        InsertionMode::BeforeHead => 3,
        InsertionMode::InHead => 2,
        InsertionMode::AfterHead => 1,
        _ => 0,
    }
}

/// A token processed, and processed again in the next mode for as long as a mode asks.
pub open spec fn process(pm: ParserModel, t: TokenModel) -> Step
    decreases mode_rank(pm.mode),
{
    match dispatch(pm, t) {
        Step::Next(p2) => if p2.reprocess {
            if mode_rank(p2.mode) < mode_rank(pm.mode) {
                process(ParserModel { reprocess: false, ..p2 }, t)
            } else {
                Step::Unsupported
            }
        } else {
            Step::Next(p2)
        },
        other => other,
    }
}

/// The parser run for at most `fuel` tokens.
pub open spec fn run_parser(pm: ParserModel, fuel: nat) -> Outcome
    decreases fuel,
{
    if pm.done {
        Outcome::Finished(pm)
    } else if fuel == 0 {
        Outcome::Pending
    } else if !can_consume(pm.tok) {
        Outcome::Unsupported
    } else {
        let (tok2, t) = after_consume(pm.tok);
        match process(ParserModel { tok: tok2, ..pm }, t) {
            Step::Next(p2) => run_parser(p2, (fuel - 1) as nat),
            Step::Fail(f) => Outcome::Failed(f),
            Step::Unsupported => Outcome::Unsupported,
        }
    }
}

/// How the run ends: it ends within more tokens than its weight (see `lemma_run_ends`).
pub open spec fn parse_outcome(pm: ParserModel) -> Outcome {
    run_parser(pm, run_weight(pm) + 1)
}

/// The token is kept by the mode it reaches, or handed on to a mode of smaller rank.
pub open spec fn hands_on_down(pm: ParserModel, t: TokenModel) -> bool {
    match dispatch(pm, t) {
        Step::Next(p2) => p2.reprocess ==> mode_rank(p2.mode) < mode_rank(pm.mode),
        _ => true,
    }
}

/// A token that makes a mode hand it on moves the parser to a mode of smaller rank.
pub proof fn lemma_reprocess_rank(pm: ParserModel, t: TokenModel)
    requires
        !pm.reprocess,
    ensures
        hands_on_down(pm, t),
{
    match pm.mode {
        InsertionMode::Initial => {
            assert(hands_on_down(pm, t));
        },
        InsertionMode::BeforeHtml => {
            assert(hands_on_down(pm, t));
        },
        InsertionMode::BeforeHead => {
            assert(hands_on_down(pm, t));
        },
        InsertionMode::InHead => {
            assert(hands_on_down(pm, t));
        },
        InsertionMode::AfterHead => {
            assert(hands_on_down(pm, t));
        },
        InsertionMode::InBody => {
            if let TokenModel::StartTag { tag_name, attributes, .. } = t {
                lemma_li_keeps_reprocess(pm, tag_name, attributes);
            }
            lemma_implied_keeps_reprocess(pm, None);
            lemma_implied_keeps_reprocess(pm, Some("p"@));
            lemma_implied_keeps_reprocess(pm, Some("li"@));
            assert(hands_on_down(pm, t));
        },
        InsertionMode::Text => {
            assert(hands_on_down(pm, t));
        },
        _ => {
            assert(hands_on_down(pm, t));
        },
    }
}

/// The `li` start tag does not ask for the token to be processed again.
proof fn lemma_li_keeps_reprocess(pm: ParserModel, tag_name: Seq<char>, attributes: Seq<(Seq<char>, Seq<char>)>)
    requires
        !pm.reprocess,
    ensures
        in_body_li(pm, tag_name, attributes) matches Step::Next(p2) ==> !p2.reprocess,
{
    lemma_implied_keeps_reprocess(pm, Some("li"@));
}

/// Popping implied end tags leaves the flag for processing the token again, and the
/// tokenizer, as they were.
proof fn lemma_implied_keeps_reprocess(pm: ParserModel, excluded: Option<Seq<char>>)
    ensures
        implied_end_tags(pm, excluded) matches Some(p) ==> p.reprocess == pm.reprocess && p.tok == pm.tok
            && p.done == pm.done,
    decreases pm.stack.len(),
{
    if current_elm_name(pm) matches Some(name) && implied_end_tag(name) && excluded != Some(name) {
        lemma_implied_keeps_reprocess(pop(pm), excluded);
    }
}

/// How many more tokens a parser can be handed before its run ends, at most: none
/// once it is done; the tokens queued, up to and with the end-of-file token, once that
/// is queued; else a bound from the tokenizer's potential.
pub open spec fn tok_weight(m: TokenizerModel) -> nat {
    if eof_queued(m) {
        m.output.len() + 1
    } else {
        potential(m) + 5
    }
}

/// See `tok_weight`.
pub open spec fn run_weight(pm: ParserModel) -> nat {
    if pm.done {
        0
    } else {
        tok_weight(pm.tok)
    }
}

/// A request for a token keeps the tokenizer's invariant, and hands out the
/// end-of-file token or lowers the weight.
pub proof fn lemma_consume_weight(m: TokenizerModel)
    requires
        can_consume(m),
        tok_inv(m),
    ensures
        tok_inv(after_consume(m).0),
        after_consume(m).1 == TokenModel::Eof || tok_weight(after_consume(m).0) < tok_weight(m),
{
    lemma_run(m, mm());
    lemma_run_potential(m, mm());
    let r = run(m, mm());
    let m2 = after_consume(m).0;
    assert(m2.output == r.output.drop_first());
    if m.output.len() > 0 {
        assert(r == m);
        if eof_queued(m) && r.output[0] != TokenModel::Eof {
            let k = choose|k: int| 0 <= k < m.output.len() && m.output[k] == TokenModel::Eof;
            assert(m2.output[k - 1] == TokenModel::Eof);
        }
        if !eof_queued(m) {
            assert forall|k: int| 0 <= k < m2.output.len() implies m2.output[k] != TokenModel::Eof by {
                assert(m2.output[k] == m.output[k + 1]);
            }
        }
    } else {
        if eof_queued(r) {
            if r.output[0] != TokenModel::Eof {
                let k = choose|k: int| 0 <= k < r.output.len() && r.output[k] == TokenModel::Eof;
                assert(m2.output[k - 1] == TokenModel::Eof);
            }
        } else {
            assert forall|k: int| 0 <= k < m2.output.len() implies m2.output[k] != TokenModel::Eof by {
                assert(m2.output[k] == r.output[k + 1]);
            }
        }
    }
}

/// Switching the tokenizer to the raw text state keeps its invariant and does not
/// raise its weight.
pub proof fn lemma_raw_text_weight(m: TokenizerModel)
    requires
        tok_inv(m),
    ensures
        tok_inv(m.to(TokenizationState::RawText)),
        tok_weight(m.to(TokenizationState::RawText)) <= tok_weight(m),
{
}

/// What a token does to the tokenizer: nothing, or a switch to the raw text state.
pub open spec fn tok_kept(before: TokenizerModel, after: TokenizerModel) -> bool {
    after == before || after == before.to(TokenizationState::RawText)
}

/// What one mode does to the tokenizer and with the end-of-file token: it leaves the
/// tokenizer as it was or switches it to raw text; given the end-of-file token, it
/// finishes the document or hands the token on.
pub open spec fn dispatch_keeps(pm: ParserModel, t: TokenModel) -> bool {
    match dispatch(pm, t) {
        Step::Next(p2) => tok_kept(pm.tok, p2.tok) && (t == TokenModel::Eof ==> p2.done || p2.reprocess),
        _ => true,
    }
}

/// See `dispatch_keeps`.
proof fn lemma_dispatch_tok(pm: ParserModel, t: TokenModel)
    ensures
        dispatch_keeps(pm, t),
{
    match pm.mode {
        InsertionMode::InBody => {
            match t {
                TokenModel::StartTag { tag_name, attributes, .. } => {
                    lemma_implied_keeps_reprocess(pm, Some("li"@));
                    assert(dispatch_keeps(pm, t));
                },
                TokenModel::EndTag { tag_name, .. } => {
                    lemma_implied_keeps_reprocess(pm, None);
                    lemma_implied_keeps_reprocess(pm, Some("p"@));
                    lemma_implied_keeps_reprocess(pm, Some("li"@));
                    assert(dispatch_keeps(pm, t));
                },
                _ => {
                    assert(dispatch_keeps(pm, t));
                },
            }
        },
        InsertionMode::Initial => assert(dispatch_keeps(pm, t)),
        InsertionMode::BeforeHtml => assert(dispatch_keeps(pm, t)),
        InsertionMode::BeforeHead => assert(dispatch_keeps(pm, t)),
        InsertionMode::InHead => assert(dispatch_keeps(pm, t)),
        InsertionMode::AfterHead => assert(dispatch_keeps(pm, t)),
        InsertionMode::Text => assert(dispatch_keeps(pm, t)),
        InsertionMode::AfterBody => assert(dispatch_keeps(pm, t)),
        InsertionMode::AfterAfterBody => assert(dispatch_keeps(pm, t)),
        InsertionMode::InFrameset => assert(dispatch_keeps(pm, t)),
    }
}

/// A token processed (and handed on for as long as modes ask) leaves the tokenizer as
/// it was or switches it to raw text, and leaves nothing to process again; the
/// end-of-file token finishes the document.
pub proof fn lemma_process_tok(pm: ParserModel, t: TokenModel)
    requires
        !pm.reprocess,
    ensures
        process(pm, t) matches Step::Next(p2) ==> tok_kept(pm.tok, p2.tok) && !p2.reprocess && (t
            == TokenModel::Eof ==> p2.done),
    decreases mode_rank(pm.mode),
{
    lemma_dispatch_tok(pm, t);
    if let Step::Next(p2) = dispatch(pm, t) {
        if p2.reprocess && mode_rank(p2.mode) < mode_rank(pm.mode) {
            lemma_process_tok(ParserModel { reprocess: false, ..p2 }, t);
        }
    }
}

/// A parser run ends (finished, failed or on a token it does not support) within more
/// tokens than its weight.
pub proof fn lemma_run_ends(pm: ParserModel, fuel: nat)
    requires
        tok_inv(pm.tok),
        !pm.reprocess,
        fuel > run_weight(pm),
    ensures
        !(run_parser(pm, fuel) is Pending),
    decreases run_weight(pm),
{
    if !pm.done && can_consume(pm.tok) {
        let (tok2, t) = after_consume(pm.tok);
        lemma_consume_weight(pm.tok);
        let pm1 = ParserModel { tok: tok2, ..pm };
        lemma_process_tok(pm1, t);
        if let Step::Next(p2) = process(pm1, t) {
            if t != TokenModel::Eof {
                lemma_raw_text_weight(tok2);
                lemma_run_ends(p2, (fuel - 1) as nat);
            }
        }
    }
}


/// `br` is a void element: in body, a `br` start tag appends a `br` element without
/// children as the last child of the current node and leaves the stack of open
/// elements as it was, so the content that follows goes to the `br`'s parent, not
/// into the `br`.
pub proof fn lemma_br_is_void(pm: ParserModel, attributes: Seq<(Seq<char>, Seq<char>)>, self_closing: bool)
    requires
        pm.mode == InsertionMode::InBody,
        insert_element(pm, "br"@, attributes) is Some,
        forall|k: int|
            0 <= k < pm.nodes[current(pm)->0 as int].children.len() ==> #[trigger] pm.nodes[current(
                pm,
            )->0 as int].children[k] < pm.nodes.len(),
    ensures
        in_body(pm, TokenModel::StartTag { tag_name: "br"@, attributes, self_closing }) matches Step::Next(p2) && {
            let n = current(pm)->0 as int;
            let b = pm.nodes.len() as int;
            &&& p2.stack == pm.stack
            &&& current(p2) == current(pm)
            &&& p2.nodes.len() == pm.nodes.len() + 1
            &&& p2.nodes[b].kind == KindView::Element("br"@, attributes)
            &&& p2.nodes[b].children.len() == 0
            &&& p2.nodes[b].parent == Some(n as usize)
            &&& p2.nodes[n].children == pm.nodes[n].children.push(b as usize)
        },
{
    reveal_strlit("br");
    reveal_strlit("a");
    reveal_strlit("div");
    reveal_strlit("p");
    reveal_strlit("ul");
    reveal_strlit("li");
    reveal_strlit("h1");
    reveal_strlit("h2");
    reveal_strlit("h3");
    reveal_strlit("h4");
    reveal_strlit("h5");
    reveal_strlit("h6");
    assert("br"@.len() != "a"@.len() && "br"@.len() != "p"@.len());
    assert("br"@[0] != "div"@[0] && "br"@[0] != "ul"@[0] && "br"@[0] != "li"@[0]);
    assert("br"@[0] != "h1"@[0] && "br"@[0] != "h2"@[0] && "br"@[0] != "h3"@[0]);
    assert("br"@[0] != "h4"@[0] && "br"@[0] != "h5"@[0] && "br"@[0] != "h6"@[0]);
    assert(!is_heading("br"@));
    lemma_insert_element_facts(pm, "br"@, attributes);
    let p1 = insert_element(pm, "br"@, attributes)->0;
    assert(pop(p1).stack =~= pm.stack);
    assert(in_body(pm, TokenModel::StartTag { tag_name: "br"@, attributes, self_closing }) == Step::Next(pop(p1)));
}


/// What inserting an element does: a node of that element, without children, is
/// appended as the last child of the current node and pushed on the stack.
proof fn lemma_insert_element_facts(pm: ParserModel, tag: Seq<char>, attributes: Seq<(Seq<char>, Seq<char>)>)
    requires
        insert_element(pm, tag, attributes) is Some,
        forall|k: int|
            0 <= k < pm.nodes[current(pm)->0 as int].children.len() ==> #[trigger] pm.nodes[current(
                pm,
            )->0 as int].children[k] < pm.nodes.len(),
    ensures
        ({
            let p1 = insert_element(pm, tag, attributes)->0;
            let n = current(pm)->0 as int;
            let b = pm.nodes.len() as int;
            &&& 0 <= n < pm.nodes.len()
            &&& b < usize::MAX
            &&& p1.stack == pm.stack.push(b as usize)
            &&& p1.nodes.len() == pm.nodes.len() + 1
            &&& p1.nodes[b].kind == KindView::Element(tag, attributes)
            &&& p1.nodes[b].children.len() == 0
            &&& p1.nodes[b].parent == Some(n as usize)
            &&& p1.nodes[n].children == pm.nodes[n].children.push(b as usize)
            &&& p1.mode == pm.mode
        }),
{
    let n = current(pm)->0 as int;
    let t = pm.nodes;
    let cs = t[n].children;
    let r = t.len() as usize;
    let t1 = if cs.len() > 0 {
        t.update(cs.last() as int, NodeView { next_sibling: Some(r), ..t[cs.last() as int] })
    } else {
        t
    };
    let t2 = t1.update(n, NodeView { children: cs.push(r), ..t1[n] });
    assert(t1.len() == t.len() && t2.len() == t.len());
    assert(t2[n].children == cs.push(r));
    assert(append_view(t, n, KindView::Element(tag, attributes)) == t2.push(
        NodeView {
            kind: KindView::Element(tag, attributes),
            children: Seq::empty(),
            parent: Some(n as usize),
            prev_sibling: last_of(cs),
            next_sibling: None,
        },
    ));
}

/// In body, an `a`, `div`, `p` or `ul` start tag appends that element, without children,
/// as the last child of the current node and makes it the current node: the content
/// that follows goes into it.
pub proof fn lemma_container_start_tag(
    pm: ParserModel,
    tag: Seq<char>,
    attributes: Seq<(Seq<char>, Seq<char>)>,
    self_closing: bool,
)
    requires
        pm.mode == InsertionMode::InBody,
        tag == "a"@ || tag == "div"@ || tag == "p"@ || tag == "ul"@,
        insert_element(pm, tag, attributes) is Some,
        forall|k: int|
            0 <= k < pm.nodes[current(pm)->0 as int].children.len() ==> #[trigger] pm.nodes[current(
                pm,
            )->0 as int].children[k] < pm.nodes.len(),
    ensures
        in_body(pm, TokenModel::StartTag { tag_name: tag, attributes, self_closing }) matches Step::Next(p2) && {
            let n = current(pm)->0 as int;
            let b = pm.nodes.len() as int;
            &&& p2.stack == pm.stack.push(b as usize)
            &&& current(p2) == Some(b as usize)
            &&& p2.mode == InsertionMode::InBody
            &&& p2.nodes.len() == pm.nodes.len() + 1
            &&& p2.nodes[b].kind == KindView::Element(tag, attributes)
            &&& p2.nodes[b].children.len() == 0
            &&& p2.nodes[b].parent == Some(n as usize)
            &&& p2.nodes[n].children == pm.nodes[n].children.push(b as usize)
        },
{
    lemma_insert_element_facts(pm, tag, attributes);
}


/// In body, the end tag of the current element closes it: where the current node is an
/// `a`, `div`, `ul`, `p`, `li` or `h1` to `h6` element with that tag name, its end tag
/// pops it off the stack of open elements and changes nothing else.
pub proof fn lemma_end_tag_closes_current(pm: ParserModel, tag: Seq<char>, attributes: Seq<(Seq<char>, Seq<char>)>, self_closing: bool)
    requires
        pm.mode == InsertionMode::InBody,
        tag == "a"@ || tag == "div"@ || tag == "ul"@ || tag == "p"@ || tag == "li"@ || is_heading(tag),
        current_elm_name(pm) == Some(tag),
    ensures
        in_body(pm, TokenModel::EndTag { tag_name: tag, attributes, self_closing }) == Step::Next(
            ParserModel { stack: pm.stack.drop_last(), ..pm },
        ),
{
    reveal_strlit("a");
    reveal_strlit("body");
    reveal_strlit("div");
    reveal_strlit("ul");
    reveal_strlit("p");
    reveal_strlit("li");
    reveal_strlit("h1");
    reveal_strlit("h2");
    reveal_strlit("h3");
    reveal_strlit("h4");
    reveal_strlit("h5");
    reveal_strlit("h6");
    reveal_strlit("dd");
    reveal_strlit("dt");
    reveal_strlit("optgroup");
    reveal_strlit("option");
    reveal_strlit("rb");
    reveal_strlit("rp");
    reveal_strlit("rt");
    reveal_strlit("rtc");
    let n = current(pm)->0;
    assert(element_with(pm.nodes, n, |t: Seq<char>| t == tag));
    assert(tag != "body"@) by {
        assert(tag.len() != "body"@.len() || tag[0] != "body"@[0]);
    }
    if tag == "div"@ {
        assert("div"@.len() != "dd"@.len());
        assert("div"@.len() != "dt"@.len());
        assert("div"@.len() != "li"@.len());
        assert("div"@.len() != "optgroup"@.len());
        assert("div"@.len() != "option"@.len());
        assert("div"@.len() != "p"@.len());
        assert("div"@.len() != "rb"@.len());
        assert("div"@.len() != "rp"@.len());
        assert("div"@.len() != "rt"@.len());
        assert("div"@[0] != "rtc"@[0]);
    }
    if tag == "ul"@ {
        assert("ul"@[0] != "dd"@[0]);
        assert("ul"@[0] != "dt"@[0]);
        assert("ul"@[0] != "li"@[0]);
        assert("ul"@.len() != "optgroup"@.len());
        assert("ul"@.len() != "option"@.len());
        assert("ul"@.len() != "p"@.len());
        assert("ul"@[0] != "rb"@[0]);
        assert("ul"@[0] != "rp"@[0]);
        assert("ul"@[0] != "rt"@[0]);
        assert("ul"@.len() != "rtc"@.len());
    }
    if tag == "a"@ {
        assert("a"@.len() != "dd"@.len());
        assert("a"@.len() != "dt"@.len());
        assert("a"@.len() != "li"@.len());
        assert("a"@.len() != "optgroup"@.len());
        assert("a"@.len() != "option"@.len());
        assert("a"@[0] != "p"@[0]);
        assert("a"@.len() != "rb"@.len());
        assert("a"@.len() != "rp"@.len());
        assert("a"@.len() != "rt"@.len());
        assert("a"@.len() != "rtc"@.len());
    }
    if tag == "h1"@ {
        assert("h1"@[0] != "dd"@[0]);
        assert("h1"@[0] != "dt"@[0]);
        assert("h1"@[0] != "li"@[0]);
        assert("h1"@.len() != "optgroup"@.len());
        assert("h1"@.len() != "option"@.len());
        assert("h1"@.len() != "p"@.len());
        assert("h1"@[0] != "rb"@[0]);
        assert("h1"@[0] != "rp"@[0]);
        assert("h1"@[0] != "rt"@[0]);
        assert("h1"@.len() != "rtc"@.len());
    }
    if tag == "h2"@ {
        assert("h2"@[0] != "dd"@[0]);
        assert("h2"@[0] != "dt"@[0]);
        assert("h2"@[0] != "li"@[0]);
        assert("h2"@.len() != "optgroup"@.len());
        assert("h2"@.len() != "option"@.len());
        assert("h2"@.len() != "p"@.len());
        assert("h2"@[0] != "rb"@[0]);
        assert("h2"@[0] != "rp"@[0]);
        assert("h2"@[0] != "rt"@[0]);
        assert("h2"@.len() != "rtc"@.len());
    }
    if tag == "h3"@ {
        assert("h3"@[0] != "dd"@[0]);
        assert("h3"@[0] != "dt"@[0]);
        assert("h3"@[0] != "li"@[0]);
        assert("h3"@.len() != "optgroup"@.len());
        assert("h3"@.len() != "option"@.len());
        assert("h3"@.len() != "p"@.len());
        assert("h3"@[0] != "rb"@[0]);
        assert("h3"@[0] != "rp"@[0]);
        assert("h3"@[0] != "rt"@[0]);
        assert("h3"@.len() != "rtc"@.len());
    }
    if tag == "h4"@ {
        assert("h4"@[0] != "dd"@[0]);
        assert("h4"@[0] != "dt"@[0]);
        assert("h4"@[0] != "li"@[0]);
        assert("h4"@.len() != "optgroup"@.len());
        assert("h4"@.len() != "option"@.len());
        assert("h4"@.len() != "p"@.len());
        assert("h4"@[0] != "rb"@[0]);
        assert("h4"@[0] != "rp"@[0]);
        assert("h4"@[0] != "rt"@[0]);
        assert("h4"@.len() != "rtc"@.len());
    }
    if tag == "h5"@ {
        assert("h5"@[0] != "dd"@[0]);
        assert("h5"@[0] != "dt"@[0]);
        assert("h5"@[0] != "li"@[0]);
        assert("h5"@.len() != "optgroup"@.len());
        assert("h5"@.len() != "option"@.len());
        assert("h5"@.len() != "p"@.len());
        assert("h5"@[0] != "rb"@[0]);
        assert("h5"@[0] != "rp"@[0]);
        assert("h5"@[0] != "rt"@[0]);
        assert("h5"@.len() != "rtc"@.len());
    }
    if tag == "h6"@ {
        assert("h6"@[0] != "dd"@[0]);
        assert("h6"@[0] != "dt"@[0]);
        assert("h6"@[0] != "li"@[0]);
        assert("h6"@.len() != "optgroup"@.len());
        assert("h6"@.len() != "option"@.len());
        assert("h6"@.len() != "p"@.len());
        assert("h6"@[0] != "rb"@[0]);
        assert("h6"@[0] != "rp"@[0]);
        assert("h6"@[0] != "rt"@[0]);
        assert("h6"@.len() != "rtc"@.len());
    }
}


/// What appending a node does: a node of kind `k`, without children, becomes the last
/// child of node `n`, and the rest of the parser is unchanged.
proof fn lemma_append_facts(pm: ParserModel, n: usize, k: KindView)
    requires
        append_to(pm, n, k) is Some,
        forall|i: int|
            0 <= i < pm.nodes[n as int].children.len() ==> #[trigger] pm.nodes[n as int].children[i]
                < pm.nodes.len(),
    ensures
        ({
            let p1 = append_to(pm, n, k)->0;
            let b = pm.nodes.len() as int;
            &&& p1 == (ParserModel { nodes: p1.nodes, ..pm })
            &&& p1.nodes.len() == pm.nodes.len() + 1
            &&& p1.nodes[b].kind == k
            &&& p1.nodes[b].children.len() == 0
            &&& p1.nodes[b].parent == Some(n)
            &&& p1.nodes[n as int].children == pm.nodes[n as int].children.push(b as usize)
            &&& forall|j: int|
                0 <= j < pm.nodes.len() ==> #[trigger] p1.nodes[j].kind == pm.nodes[j].kind && p1.nodes[j].parent
                    == pm.nodes[j].parent
            &&& forall|j: int|
                0 <= j < pm.nodes.len() && j != n ==> #[trigger] p1.nodes[j].children == pm.nodes[j].children
        }),
{
    let t = pm.nodes;
    let cs = t[n as int].children;
    let r = t.len() as usize;
    let t1 = if cs.len() > 0 {
        t.update(cs.last() as int, NodeView { next_sibling: Some(r), ..t[cs.last() as int] })
    } else {
        t
    };
    let t2 = t1.update(n as int, NodeView { children: cs.push(r), ..t1[n as int] });
    assert(t1.len() == t.len() && t2.len() == t.len());
    assert(t2[n as int].children == cs.push(r));
    assert(append_view(t, n as int, k) == t2.push(
        NodeView {
            kind: k,
            children: Seq::empty(),
            parent: Some(n),
            prev_sibling: last_of(cs),
            next_sibling: None,
        },
    ));
}

/// Before `html`, a character that is not blank, or a start tag other than `html`,
/// implies the `html` element: one without attributes is appended to the document node
/// and opened, and the token is processed again before `head`.
pub proof fn lemma_implied_html(pm: ParserModel, t: TokenModel)
    requires
        pm.mode == InsertionMode::BeforeHtml,
        (t matches TokenModel::Character(c) && !blank(c)) || (t matches TokenModel::StartTag { tag_name, .. }
            && tag_name != "html"@),
        append_to(pm, 0, KindView::Element("html"@, Seq::empty())) is Some,
        forall|i: int| 0 <= i < pm.nodes[0].children.len() ==> #[trigger] pm.nodes[0].children[i] < pm.nodes.len(),
    ensures
        dispatch(pm, t) matches Step::Next(p2) && {
            let b = pm.nodes.len() as int;
            &&& p2 == (ParserModel {
                mode: InsertionMode::BeforeHead,
                reprocess: true,
                stack: pm.stack.push(b as usize),
                nodes: p2.nodes,
                ..pm
            })
            &&& p2.nodes.len() == pm.nodes.len() + 1
            &&& p2.nodes[b].kind == KindView::Element("html"@, Seq::empty())
            &&& p2.nodes[b].children.len() == 0
            &&& p2.nodes[b].parent == Some(0usize)
            &&& p2.nodes[0].children == pm.nodes[0].children.push(b as usize)
        },
{
    lemma_append_facts(pm, 0, KindView::Element("html"@, Seq::empty()));
}

/// Before `head`, a character that is not blank, or a start tag other than `head` and
/// `html`, implies the `head` element: one without attributes is appended to the
/// current node and opened, and the token is processed again in `head`.
pub proof fn lemma_implied_head(pm: ParserModel, t: TokenModel)
    requires
        pm.mode == InsertionMode::BeforeHead,
        (t matches TokenModel::Character(c) && !blank(c)) || (t matches TokenModel::StartTag { tag_name, .. }
            && tag_name != "head"@ && tag_name != "html"@),
        insert_element(pm, "head"@, Seq::empty()) is Some,
        forall|k: int|
            0 <= k < pm.nodes[current(pm)->0 as int].children.len() ==> #[trigger] pm.nodes[current(
                pm,
            )->0 as int].children[k] < pm.nodes.len(),
    ensures
        dispatch(pm, t) matches Step::Next(p2) && {
            let n = current(pm)->0 as int;
            let b = pm.nodes.len() as int;
            &&& p2 == (ParserModel {
                mode: InsertionMode::InHead,
                reprocess: true,
                stack: pm.stack.push(b as usize),
                nodes: p2.nodes,
                ..pm
            })
            &&& p2.nodes.len() == pm.nodes.len() + 1
            &&& p2.nodes[b].kind == KindView::Element("head"@, Seq::empty())
            &&& p2.nodes[b].children.len() == 0
            &&& p2.nodes[b].parent == Some(n as usize)
            &&& p2.nodes[n].children == pm.nodes[n].children.push(b as usize)
        },
{
    lemma_append_facts(pm, current(pm)->0, KindView::Element("head"@, Seq::empty()));
}

/// In `head`, a character that is not blank ends the head: the current node (the
/// `head` element) is popped and the character is processed again after the head.
/// The end tag `head` closes a current `head` element in the same way, without
/// processing it again.
pub proof fn lemma_head_ends(pm: ParserModel, c: char, attributes: Seq<(Seq<char>, Seq<char>)>, self_closing: bool)
    requires
        pm.mode == InsertionMode::InHead,
    ensures
        !blank(c) ==> dispatch(pm, TokenModel::Character(c)) == Step::Next(
            ParserModel { mode: InsertionMode::AfterHead, reprocess: true, stack: pop(pm).stack, ..pm },
        ),
        current_elm_name(pm) == Some("head"@) ==> dispatch(
            pm,
            TokenModel::EndTag { tag_name: "head"@, attributes, self_closing },
        ) == Step::Next(ParserModel { mode: InsertionMode::AfterHead, stack: pm.stack.drop_last(), ..pm }),
{
    if current_elm_name(pm) == Some("head"@) {
        assert(element_with(pm.nodes, current(pm)->0, |tag: Seq<char>| tag == "head"@));
    }
}

/// After the head, a character that is not blank implies the `body` element: one
/// without attributes is appended to the current node and opened, and the character
/// is processed again in body. A `body` start tag opens a `body` element with its
/// attributes, and asks for no processing again.
pub proof fn lemma_implied_body(pm: ParserModel, t: TokenModel)
    requires
        pm.mode == InsertionMode::AfterHead,
        (t matches TokenModel::Character(c) && !blank(c)) || (t matches TokenModel::StartTag { tag_name, .. }
            && tag_name == "body"@),
        insert_element(pm, "body"@, Seq::empty()) is Some,
        forall|k: int|
            0 <= k < pm.nodes[current(pm)->0 as int].children.len() ==> #[trigger] pm.nodes[current(
                pm,
            )->0 as int].children[k] < pm.nodes.len(),
    ensures
        dispatch(pm, t) matches Step::Next(p2) && {
            let n = current(pm)->0 as int;
            let b = pm.nodes.len() as int;
            let attrs = match t {
                TokenModel::StartTag { attributes, .. } => attributes,
                _ => Seq::empty(),
            };
            &&& p2 == (ParserModel {
                mode: InsertionMode::InBody,
                reprocess: if t is Character { true } else { pm.reprocess },
                stack: pm.stack.push(b as usize),
                nodes: p2.nodes,
                ..pm
            })
            &&& p2.nodes.len() == pm.nodes.len() + 1
            &&& p2.nodes[b].kind == KindView::Element("body"@, attrs)
            &&& p2.nodes[b].children.len() == 0
            &&& p2.nodes[b].parent == Some(n as usize)
            &&& p2.nodes[n].children == pm.nodes[n].children.push(b as usize)
        },
{
    let attrs = match t {
        TokenModel::StartTag { attributes, .. } => attributes,
        _ => Seq::empty(),
    };
    lemma_append_facts(pm, current(pm)->0, KindView::Element("body"@, attrs));
}

/// In body, a character (other than NUL) is text of the current node: it is added to
/// the end of the current node's last child where that is a text node, and otherwise
/// goes into a new text node appended to the current node. The stack of open elements
/// is unchanged.
pub proof fn lemma_text_in_body(pm: ParserModel, c: char)
    requires
        pm.mode == InsertionMode::InBody,
        c != '\u{0000}',
        current(pm) is Some,
        current(pm)->0 < pm.nodes.len(),
        pm.nodes.len() + 1 < usize::MAX,
        forall|k: int|
            0 <= k < pm.nodes[current(pm)->0 as int].children.len() ==> #[trigger] pm.nodes[current(
                pm,
            )->0 as int].children[k] < pm.nodes.len(),
    ensures
        dispatch(pm, TokenModel::Character(c)) matches Step::Next(p2) && {
            let n = current(pm)->0 as int;
            let cs = pm.nodes[n].children;
            let b = pm.nodes.len() as int;
            &&& p2.stack == pm.stack
            &&& p2.mode == InsertionMode::InBody
            &&& (cs.len() > 0 && pm.nodes[cs.last() as int].kind is Text) ==> {
                let l = cs.last() as int;
                &&& p2.nodes.len() == pm.nodes.len()
                &&& p2.nodes[l].kind == KindView::Text(pm.nodes[l].kind->Text_0.push(c))
                &&& forall|j: int| 0 <= j < pm.nodes.len() && j != l ==> p2.nodes[j] == pm.nodes[j]
            }
            &&& !(cs.len() > 0 && pm.nodes[cs.last() as int].kind is Text) ==> {
                &&& p2.nodes.len() == pm.nodes.len() + 1
                &&& p2.nodes[b].kind == KindView::Text(seq![c])
                &&& p2.nodes[b].parent == Some(n as usize)
                &&& p2.nodes[n].children == cs.push(b as usize)
            }
        },
{
    let n = current(pm)->0;
    let cs = pm.nodes[n as int].children;
    if !(cs.len() > 0 && pm.nodes[cs.last() as int].kind is Text) {
        lemma_append_facts(pm, n, KindView::Text(seq![c]));
    }
}

/// A document that starts with text: on a parser before `html` that holds only the
/// document node and has nothing open, a character that is not blank builds the
/// implied structure (`html` under the document node, `head` and then `body` under
/// `html`, and the character in a text node under `body`), and leaves `html` and `body`
/// open, in body.
pub proof fn lemma_text_implies_structure(pm: ParserModel, c: char)
    requires
        pm.mode == InsertionMode::BeforeHtml,
        pm.nodes.len() == 1,
        pm.nodes[0].children.len() == 0,
        pm.stack.len() == 0,
        !pm.reprocess,
        !blank(c),
        c != '\u{0000}',
    ensures
        process(pm, TokenModel::Character(c)) matches Step::Next(p2) && {
            &&& p2.mode == InsertionMode::InBody
            &&& !p2.reprocess
            &&& p2.stack == seq![1usize, 3usize]
            &&& p2.nodes.len() == 5
            &&& p2.nodes[0].children == seq![1usize]
            &&& p2.nodes[1].kind == KindView::Element("html"@, Seq::empty())
            &&& p2.nodes[1].parent == Some(0usize)
            &&& p2.nodes[1].children == seq![2usize, 3usize]
            &&& p2.nodes[2].kind == KindView::Element("head"@, Seq::empty())
            &&& p2.nodes[2].parent == Some(1usize)
            &&& p2.nodes[2].children.len() == 0
            &&& p2.nodes[3].kind == KindView::Element("body"@, Seq::empty())
            &&& p2.nodes[3].parent == Some(1usize)
            &&& p2.nodes[3].children == seq![4usize]
            &&& p2.nodes[4].kind == KindView::Text(seq![c])
            &&& p2.nodes[4].parent == Some(3usize)
            &&& p2.nodes[4].children.len() == 0
        },
{
    let t = TokenModel::Character(c);
    let html = KindView::Element("html"@, Seq::empty());
    let head = KindView::Element("head"@, Seq::empty());
    let body = KindView::Element("body"@, Seq::empty());
    // before html: `html` under the document node
    lemma_append_facts(pm, 0, html);
    lemma_implied_html(pm, t);
    let a1 = append_to(pm, 0, html)->0;
    let q1 = ParserModel { mode: InsertionMode::BeforeHead, reprocess: false, stack: seq![1usize], ..a1 };
    assert(pm.stack.push(1usize) =~= seq![1usize]);
    assert(process(pm, t) == process(q1, t));
    // before head: `head` under `html`
    assert(current(q1) == Some(1usize));
    lemma_append_facts(q1, 1, head);
    lemma_implied_head(q1, t);
    let a2 = append_to(q1, 1, head)->0;
    let q2 = ParserModel { mode: InsertionMode::InHead, reprocess: false, stack: seq![1usize, 2usize], ..a2 };
    assert(q1.stack.push(2usize) =~= seq![1usize, 2usize]);
    assert(process(q1, t) == process(q2, t));
    // in head: the head ends
    lemma_head_ends(q2, c, Seq::empty(), false);
    let q3 = ParserModel { mode: InsertionMode::AfterHead, reprocess: false, stack: seq![1usize], ..q2 };
    assert(pop(q2).stack =~= seq![1usize]);
    assert(process(q2, t) == process(q3, t));
    // after head: `body` under `html`
    assert(current(q3) == Some(1usize));
    assert(q3.nodes[1].children =~= seq![2usize]);
    lemma_append_facts(q3, 1, body);
    lemma_implied_body(q3, t);
    let a4 = append_to(q3, 1, body)->0;
    let q4 = ParserModel { mode: InsertionMode::InBody, reprocess: false, stack: seq![1usize, 3usize], ..a4 };
    assert(q3.stack.push(3usize) =~= seq![1usize, 3usize]);
    assert(process(q3, t) == process(q4, t));
    // in body: the character in a new text node under `body`
    assert(current(q4) == Some(3usize));
    assert(q4.nodes[3].children.len() == 0);
    lemma_append_facts(q4, 3, KindView::Text(seq![c]));
    lemma_text_in_body(q4, c);
    assert(q4.nodes[1].children =~= seq![2usize, 3usize]);
    assert(q1.nodes[0].children =~= seq![1usize]);
}

/// The tag names `h1` to `h6` are none of `a`, `div`, `p`, `ul`, `li` and `br`, and
/// `li` is none of `a`, `div`, `p`, `ul` and `br`.
proof fn lemma_body_tag_names(t: Seq<char>)
    ensures
        is_heading(t) ==> t != "a"@ && t != "div"@ && t != "p"@ && t != "ul"@ && t != "li"@ && t != "br"@,
        !is_heading("li"@) && "li"@ != "a"@ && "li"@ != "div"@ && "li"@ != "p"@ && "li"@ != "ul"@,
{
    reveal_strlit("h1");
    reveal_strlit("h2");
    reveal_strlit("h3");
    reveal_strlit("h4");
    reveal_strlit("h5");
    reveal_strlit("h6");
    reveal_strlit("a");
    reveal_strlit("div");
    reveal_strlit("p");
    reveal_strlit("ul");
    reveal_strlit("li");
    reveal_strlit("br");
    assert("h1"@.len() != "a"@.len());
    assert("h1"@.len() != "div"@.len());
    assert("h1"@.len() != "p"@.len());
    assert("h1"@[0] != "ul"@[0]);
    assert("h1"@[0] != "li"@[0]);
    assert("h1"@[0] != "br"@[0]);
    assert("h2"@.len() != "a"@.len());
    assert("h2"@.len() != "div"@.len());
    assert("h2"@.len() != "p"@.len());
    assert("h2"@[0] != "ul"@[0]);
    assert("h2"@[0] != "li"@[0]);
    assert("h2"@[0] != "br"@[0]);
    assert("h3"@.len() != "a"@.len());
    assert("h3"@.len() != "div"@.len());
    assert("h3"@.len() != "p"@.len());
    assert("h3"@[0] != "ul"@[0]);
    assert("h3"@[0] != "li"@[0]);
    assert("h3"@[0] != "br"@[0]);
    assert("h4"@.len() != "a"@.len());
    assert("h4"@.len() != "div"@.len());
    assert("h4"@.len() != "p"@.len());
    assert("h4"@[0] != "ul"@[0]);
    assert("h4"@[0] != "li"@[0]);
    assert("h4"@[0] != "br"@[0]);
    assert("h5"@.len() != "a"@.len());
    assert("h5"@.len() != "div"@.len());
    assert("h5"@.len() != "p"@.len());
    assert("h5"@[0] != "ul"@[0]);
    assert("h5"@[0] != "li"@[0]);
    assert("h5"@[0] != "br"@[0]);
    assert("h6"@.len() != "a"@.len());
    assert("h6"@.len() != "div"@.len());
    assert("h6"@.len() != "p"@.len());
    assert("h6"@[0] != "ul"@[0]);
    assert("h6"@[0] != "li"@[0]);
    assert("h6"@[0] != "br"@[0]);
    assert("div"@.len() != "a"@.len());
    assert("p"@[0] != "a"@[0]);
    assert("p"@.len() != "div"@.len());
    assert("ul"@.len() != "a"@.len());
    assert("ul"@.len() != "div"@.len());
    assert("ul"@.len() != "p"@.len());
    assert("li"@.len() != "a"@.len());
    assert("li"@.len() != "div"@.len());
    assert("li"@.len() != "p"@.len());
    assert("li"@[0] != "ul"@[0]);
    assert("br"@.len() != "a"@.len());
    assert("br"@.len() != "div"@.len());
    assert("br"@.len() != "p"@.len());
    assert("br"@[0] != "ul"@[0]);
    assert("br"@[0] != "li"@[0]);
}

/// In body, a heading start tag closes a heading that is the current node: that heading
/// is popped, and the new heading is appended to the node under it (the parent of the
/// old heading) and opened, so headings do not nest.
pub proof fn lemma_heading_closes_heading(
    pm: ParserModel,
    tag: Seq<char>,
    attributes: Seq<(Seq<char>, Seq<char>)>,
    self_closing: bool,
)
    requires
        pm.mode == InsertionMode::InBody,
        is_heading(tag),
        current_elm_name(pm) matches Some(h) && is_heading(h),
        pm.stack.len() >= 2,
        insert_element(pop(pm), tag, attributes) is Some,
        forall|k: int|
            0 <= k < pm.nodes[pm.stack[pm.stack.len() - 2] as int].children.len() ==> #[trigger] pm.nodes[pm.stack[pm.stack.len() - 2] as int].children[k]
                < pm.nodes.len(),
    ensures
        dispatch(pm, TokenModel::StartTag { tag_name: tag, attributes, self_closing }) matches Step::Next(p2) && {
            let n = pm.stack[pm.stack.len() - 2] as int;
            let b = pm.nodes.len() as int;
            &&& p2.stack == pm.stack.drop_last().push(b as usize)
            &&& p2.mode == InsertionMode::InBody
            &&& p2.nodes.len() == pm.nodes.len() + 1
            &&& p2.nodes[b].kind == KindView::Element(tag, attributes)
            &&& p2.nodes[b].parent == Some(n as usize)
            &&& p2.nodes[n].children == pm.nodes[n].children.push(b as usize)
        },
{
    lemma_body_tag_names(tag);
    let p1 = pop(pm);
    assert(current(p1) == Some(pm.stack[pm.stack.len() - 2]));
    lemma_append_facts(p1, pm.stack[pm.stack.len() - 2], KindView::Element(tag, attributes));
}

/// In body, an `li` start tag closes an `li` that is the current node: that `li` is
/// popped, and the new `li` is appended to the node under it and opened, so list items
/// follow one another instead of nesting.
pub proof fn lemma_li_closes_li(pm: ParserModel, attributes: Seq<(Seq<char>, Seq<char>)>, self_closing: bool)
    requires
        pm.mode == InsertionMode::InBody,
        current_elm_name(pm) == Some("li"@),
        pm.stack.len() >= 2,
        insert_element(pop(pm), "li"@, attributes) is Some,
        forall|k: int|
            0 <= k < pm.nodes[pm.stack[pm.stack.len() - 2] as int].children.len() ==> #[trigger] pm.nodes[pm.stack[pm.stack.len() - 2] as int].children[k]
                < pm.nodes.len(),
    ensures
        dispatch(pm, TokenModel::StartTag { tag_name: "li"@, attributes, self_closing }) matches Step::Next(p2) && {
            let n = pm.stack[pm.stack.len() - 2] as int;
            let b = pm.nodes.len() as int;
            &&& p2.stack == pm.stack.drop_last().push(b as usize)
            &&& p2.mode == InsertionMode::InBody
            &&& p2.nodes.len() == pm.nodes.len() + 1
            &&& p2.nodes[b].kind == KindView::Element("li"@, attributes)
            &&& p2.nodes[b].parent == Some(n as usize)
            &&& p2.nodes[n].children == pm.nodes[n].children.push(b as usize)
        },
{
    lemma_body_tag_names("li"@);
    let p1 = pop(pm);
    assert(implied_end_tags(pm, Some("li"@)) == Some(pm));
    assert(element_with(pm.nodes, pm.stack.last(), |tag: Seq<char>| tag == "li"@));
    assert(pop_through(pm.nodes, pm.stack, |tag: Seq<char>| tag == "li"@) == Some(pm.stack.drop_last()));
    assert((ParserModel { stack: pm.stack.drop_last(), ..pm }) == p1);
    assert(current(p1) == Some(pm.stack[pm.stack.len() - 2]));
    lemma_append_facts(p1, pm.stack[pm.stack.len() - 2], KindView::Element("li"@, attributes));
}

/// The title is the text of the `title` element: in head, a `title` start tag opens a
/// `title` element and reads text until its end tag, which closes it, makes the text
/// of its first child the document's title, and goes back to the mode it came from.
pub proof fn lemma_title(pm: ParserModel, attributes: Seq<(Seq<char>, Seq<char>)>, self_closing: bool)
    ensures
        (pm.mode == InsertionMode::InHead && insert_element(pm, "title"@, attributes) is Some) ==> dispatch(
            pm,
            TokenModel::StartTag { tag_name: "title"@, attributes, self_closing },
        ) == Step::Next(
            ParserModel {
                mode: InsertionMode::Text,
                orig_mode: Some(InsertionMode::InHead),
                ..insert_element(pm, "title"@, attributes)->0
            },
        ),
        ({
            &&& pm.mode == InsertionMode::Text
            &&& pm.orig_mode is Some
            &&& current(pm) matches Some(n) && n < pm.nodes.len() && pm.nodes[n as int].children.len() > 0 && {
                let c0 = pm.nodes[n as int].children[0];
                c0 < pm.nodes.len() && pm.nodes[c0 as int].kind is Text
            }
        }) ==> dispatch(pm, TokenModel::EndTag { tag_name: "title"@, attributes, self_closing }) == Step::Next(
            ParserModel {
                title: Some(pm.nodes[pm.nodes[current(pm)->0 as int].children[0] as int].kind->Text_0),
                stack: pm.stack.drop_last(),
                mode: pm.orig_mode->0,
                ..pm
            },
        ),
{
    reveal_strlit("title");
    reveal_strlit("meta");
    reveal_strlit("style");
    reveal_strlit("script");
    assert("title"@.len() != "meta"@.len());
    assert("title"@[0] != "style"@[0]);
    assert("title"@.len() != "script"@.len());
}

/// The text of a `style` element is its style sheet: its end tag closes it, parses the
/// text of its last child as CSS, adds the rules to the document's style sheets (after
/// those read before) and goes back to the mode it came from; a style sheet that does
/// not parse fails the parse with its reason.
pub proof fn lemma_style_sheet_read(pm: ParserModel, attributes: Seq<(Seq<char>, Seq<char>)>, self_closing: bool)
    requires
        pm.mode == InsertionMode::Text,
        pm.orig_mode is Some,
        current(pm) matches Some(n) && n < pm.nodes.len() && pm.nodes[n as int].children.len() > 0 && {
            let l = pm.nodes[n as int].children.last();
            l < pm.nodes.len() && pm.nodes[l as int].kind is Text
        },
    ensures
        ({
            let n = current(pm)->0 as int;
            let css = pm.nodes[pm.nodes[n].children.last() as int].kind->Text_0;
            let t = TokenModel::EndTag { tag_name: "style"@, attributes, self_closing };
            &&& style_sheet(css) matches Ok(rs) ==> dispatch(pm, t) == Step::Next(
                ParserModel {
                    sheets: pm.sheets.push(rs),
                    stack: pm.stack.drop_last(),
                    mode: pm.orig_mode->0,
                    ..pm
                },
            )
            &&& style_sheet(css) matches Err(Some(f)) ==> dispatch(pm, t) == Step::Fail(f)
        }),
{
    reveal_strlit("title");
    reveal_strlit("style");
    reveal_strlit("script");
    assert("style"@[0] != "title"@[0]);
    assert("style"@.len() != "script"@.len());
}
} // verus!
