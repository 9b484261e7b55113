//! HTML tree construction: https://html.spec.whatwg.org/multipage/parsing.html#overview-of-the-parsing-model
use vstd::prelude::*;

use crate::css::cssom::{StyleSheet, rules_view};
use crate::css::parser::parse as parse_style_sheet;
use crate::css::token::CssTokenizer;
use crate::error::Error;
use crate::html::construction::{
    ParseFailure, ParserModel, Step, append_to, append_to_current, current, current_elm_name, dispatch,
    close_element, close_li_then_insert, end_text, implied_end_tag, implied_end_tags,
    in_after_after_body, in_after_body, in_after_head, in_before_head, in_before_html, in_body,
    in_body_end_tag, in_body_start_tag,
    in_body_li, in_head, in_initial, in_text, insert_char, insert_element, insert_root_element, is_adp,
    is_heading, lemma_consume_weight, lemma_run_ends, mode_rank, parse_outcome, run_weight, pop, pop_through, process, run_parser, update_style_block, Outcome,
};
use crate::html::dom::{
    DomNode, Element, KindView, NodeType, NodeView, arena_view, kind_view, lemma_retype_keeps_links,
    node_linked, well_linked,
};
use crate::html::token::{HtmlToken, HtmlTokenizer, attrs_view, initial};
use crate::html::tokenization::tok_inv;
use crate::text::{str_eq, string_of, string_push};

verus! {

broadcast use vstd::seq::group_seq_axioms;

/// https://html.spec.whatwg.org/multipage/parsing.html#insertion-mode
#[derive(Debug, Clone, Copy, PartialEq, Eq, Structural)]
pub enum InsertionMode {
    Initial,
    BeforeHtml,
    BeforeHead,
    InHead,
    AfterHead,
    InBody,
    InFrameset,
    Text,
    AfterBody,
    AfterAfterBody,
}

/// What parsing a document gives: its nodes (the document node first), its style
/// sheets and its title.
#[derive(Debug)]
pub struct ParsedObject {
    /// The index of the document node in `nodes`.
    pub dom_root: usize,
    pub nodes: Vec<DomNode>,
    pub style_sheets: Vec<StyleSheet>,
    pub title: Option<String>,
}

/// https://html.spec.whatwg.org/multipage/parsing.html#overview-of-the-parsing-model
#[derive(Debug)]
pub struct HtmlParser {
    insertion_mode: InsertionMode,
    tokenizer: HtmlTokenizer,
    stack: Vec<usize>,
    /// When the insertion mode is switched to "text", the original insertion mode is
    /// kept here: the mode to which tree construction returns.
    orig_insertion_mode: Option<InsertionMode>,
    output: ParsedObject,
    is_parsing_done: bool,
    is_reprocessing_required: bool,
}

/// The mathematical values of the rules of each style sheet.
pub open spec fn sheets_view(s: Seq<StyleSheet>) -> Seq<Seq<crate::css::cssom::RuleModel>> {
    s.map_values(|x: StyleSheet| rules_view(x.rules@))
}

/// `Some(s@)` for `Some(s)`.
pub open spec fn opt_text(o: Option<String>) -> Option<Seq<char>> {
    match o {
        Some(s) => Some(s@),
        None => None,
    }
}

/// The error `e` is the failure `f`.
pub open spec fn is_failure(e: Error, f: ParseFailure) -> bool {
    match f {
        ParseFailure::HtmlParse => e is HtmlParse,
        ParseFailure::UnterminatedComment => e == Error::UnterminatedComment,
        ParseFailure::InvalidSelector => e == Error::InvalidSelector,
    }
}

/// The parser that has read nothing of `input` yet.
pub open spec fn initial_parser(input: Seq<char>) -> ParserModel {
    ParserModel {
        mode: InsertionMode::Initial,
        orig_mode: None,
        tok: initial(input),
        stack: Seq::empty(),
        nodes: seq![
            NodeView {
                kind: KindView::Document,
                children: Seq::empty(),
                parent: None,
                prev_sibling: None,
                next_sibling: None,
            },
        ],
        title: None,
        sheets: Seq::empty(),
        done: false,
        reprocess: false,
    }
}

/// Parsing a document always comes to an end: it finishes, fails, or reaches a token
/// that tree construction does not support; it never runs on without end.
pub proof fn lemma_parse_ends(input: Seq<char>)
    ensures
        !(parse_outcome(initial_parser(input)) is Pending),
{
    lemma_run_ends(initial_parser(input), run_weight(initial_parser(input)) + 1);
}

/// What a step gives the exec code: the new state, or the error.
pub open spec fn step_result(r: Result<(), Error>, final_model: ParserModel, s: Step) -> bool {
    match s {
        Step::Next(p) => r is Ok && final_model == p,
        Step::Fail(f) => r matches Err(e) && is_failure(e, f),
        Step::Unsupported => false,
    }
}

/// An empty list of attributes.
fn no_attributes() -> (r: Vec<(String, String)>)
    ensures
        attrs_view(r@) == Seq::<(Seq<char>, Seq<char>)>::empty(),
{
    let r: Vec<(String, String)> = Vec::new();
    assert(attrs_view(r@) =~= Seq::<(Seq<char>, Seq<char>)>::empty());
    r
}

/// A copy of the attributes `a`.
fn copy_attrs(a: &Vec<(String, String)>) -> (r: Vec<(String, String)>)
    ensures
        attrs_view(r@) == attrs_view(a@),
{
    let mut r: Vec<(String, String)> = Vec::new();
    let mut k: usize = 0;
    while k < a.len()
        invariant
            k <= a@.len(),
            attrs_view(r@) == attrs_view(a@.take(k as int)),
        decreases a.len() - k,
    {
        let (x, y) = &a[k];
        let ghost before = r@;
        r.push((x.clone(), y.clone()));
        assert(a@.take(k + 1) =~= a@.take(k as int).push(a@[k as int]));
        assert(attrs_view(r@) =~= attrs_view(before).push((x@, y@)));
        assert(attrs_view(a@.take(k + 1)) =~= attrs_view(a@.take(k as int)).push((a@[k as int].0@, a@[k as int].1@)));
        k = k + 1;
    }
    assert(a@.take(a@.len() as int) =~= a@);
    r
}

impl HtmlParser {
    /// The parser as a mathematical value.
    pub closed spec fn model(&self) -> ParserModel {
        ParserModel {
            mode: self.insertion_mode,
            orig_mode: self.orig_insertion_mode,
            tok: self.tokenizer@,
            stack: self.stack@,
            nodes: arena_view(self.output.nodes@),
            title: opt_text(self.output.title),
            sheets: sheets_view(self.output.style_sheets@),
            done: self.is_parsing_done,
            reprocess: self.is_reprocessing_required,
        }
    }

    /// The nodes are well linked, the document node comes first, and every entry of the
    /// stack of open elements is a node.
    pub closed spec fn inv(&self) -> bool {
        &&& well_linked(self.output.nodes@)
        &&& self.output.nodes@.len() >= 1
        &&& self.output.dom_root == 0
        &&& forall|k: int| 0 <= k < self.stack@.len() ==> self.stack@[k] < self.output.nodes@.len()
        &&& tok_inv(self.tokenizer@)
    }

    pub fn new(html: &str) -> (p: Self)
        ensures
            p.model() == initial_parser(html@),
            p.inv(),
    {
        let mut nodes: Vec<DomNode> = Vec::new();
        nodes.push(DomNode::new(NodeType::Document));
        let p = Self {
            insertion_mode: InsertionMode::Initial,
            tokenizer: HtmlTokenizer::new(html),
            stack: Vec::new(),
            orig_insertion_mode: None,
            output: ParsedObject { dom_root: 0, nodes, style_sheets: Vec::new(), title: None },
            is_parsing_done: false,
            is_reprocessing_required: false,
        };
        proof {
            assert(node_linked(p.output.nodes@, 0));
            assert(p.output.nodes@[0].children@ =~= Seq::<usize>::empty());
            assert(arena_view(p.output.nodes@) =~= initial_parser(html@).nodes);
            assert(sheets_view(p.output.style_sheets@) =~= Seq::empty());
            assert(p.model().stack =~= Seq::<usize>::empty());
        }
        p
    }

    /// The current node, if the stack of open elements is not empty.
    fn current_node(&self) -> (r: Option<usize>)
        ensures
            r == current(self.model()),
    {
        if self.stack.len() > 0 {
            Some(self.stack[self.stack.len() - 1])
        } else {
            None
        }
    }

    /// Appends a fresh node of type `node_type` to node `n`.
    fn append_to(&mut self, n: usize, node_type: NodeType) -> (r: usize)
        requires
            old(self).inv(),
            append_to(old(self).model(), n, kind_view(node_type)) is Some,
        ensures
            final(self).inv(),
            final(self).model() == append_to(old(self).model(), n, kind_view(node_type)).unwrap(),
            r == old(self).model().nodes.len(),
            final(self).output.nodes@.len() == old(self).output.nodes@.len() + 1,
            final(self).stack@ == old(self).stack@,
    {
        let r = DomNode::append_child(&mut self.output.nodes, n, DomNode::new(node_type));
        proof {
            assert forall|k: int| 0 <= k < self.stack@.len() implies self.stack@[k] < self.output.nodes@.len() by {
                assert(old(self).stack@[k] < old(self).output.nodes@.len());
            }
        }
        r
    }

    /// https://html.spec.whatwg.org/multipage/parsing.html#insert-an-html-element
    fn insert_element(&mut self, tag_name: String, attributes: Vec<(String, String)>)
        requires
            old(self).inv(),
            insert_element(old(self).model(), tag_name@, attrs_view(attributes@)) is Some,
        ensures
            final(self).inv(),
            final(self).model() == insert_element(old(self).model(), tag_name@, attrs_view(attributes@)).unwrap(),
    {
        let n = self.current_node().unwrap();
        let r = self.append_to(n, NodeType::Element(Element { tag_name, attributes }));
        self.stack.push(r);
        proof {
            assert forall|k: int| 0 <= k < self.stack@.len() implies self.stack@[k] < self.output.nodes@.len() by {
                if k < self.stack@.len() - 1 {
                    assert(self.stack@[k] == old(self).stack@[k]);
                }
            }
        }
    }

    /// An element appended to the document node and pushed on the stack of open elements.
    fn insert_root_element(&mut self, tag_name: String, attributes: Vec<(String, String)>)
        requires
            old(self).inv(),
            insert_root_element(old(self).model(), tag_name@, attrs_view(attributes@)) is Some,
        ensures
            final(self).inv(),
            final(self).model() == insert_root_element(old(self).model(), tag_name@, attrs_view(attributes@)).unwrap(),
    {
        let root = self.output.dom_root;
        let r = self.append_to(root, NodeType::Element(Element { tag_name, attributes }));
        self.stack.push(r);
        proof {
            assert forall|k: int| 0 <= k < self.stack@.len() implies self.stack@[k] < self.output.nodes@.len() by {
                if k < self.stack@.len() - 1 {
                    assert(self.stack@[k] == old(self).stack@[k]);
                }
            }
        }
    }

    /// https://html.spec.whatwg.org/multipage/parsing.html#insert-a-comment
    fn insert_comment(&mut self, comment: String)
        requires
            old(self).inv(),
            append_to_current(old(self).model(), KindView::Comment(comment@)) is Some,
        ensures
            final(self).inv(),
            final(self).model() == append_to_current(old(self).model(), KindView::Comment(comment@)).unwrap(),
    {
        let n = self.current_node().unwrap();
        self.append_to(n, NodeType::Comment(comment));
    }

    /// https://html.spec.whatwg.org/multipage/parsing.html#insert-a-character
    fn insert_char_to_token(&mut self, c: char)
        requires
            old(self).inv(),
            insert_char(old(self).model(), c) is Some,
        ensures
            final(self).inv(),
            final(self).model() == insert_char(old(self).model(), c).unwrap(),
    {
        let n = self.current_node().unwrap();
        let k = self.output.nodes[n].children.len();
        if k > 0 {
            let l = self.output.nodes[n].children[k - 1];
            proof {
                assert(node_linked(self.output.nodes@, n as int));
                assert(crate::html::dom::child_linked(self.output.nodes@, n as int, k - 1));
            }
            let text = match &self.output.nodes[l].node_type {
                NodeType::Text(t) => Some(string_of(t.as_str())),
                _ => None,
            };
            if let Some(t) = text {
                let mut t = t;
                string_push(&mut t, c);
                let ghost before = self.output.nodes@;
                self.output.nodes[l].set_inside_text(t.as_str());
                proof {
                    lemma_retype_keeps_links(before, self.output.nodes@, l as int);
                    let m = old(self).model();
                    let u = m.nodes.update(l as int, NodeView { kind: KindView::Text(t@), ..m.nodes[l as int] });
                    assert(arena_view(self.output.nodes@) =~= u);
                }
                return;
            }
        }
        self.append_to(n, NodeType::Text(crate::text::string_of_char(c)));
    }
}


/// Whether `t` is one of the tags whose end tag is implied.
fn is_implied_end_tag(t: &str) -> (r: bool)
    ensures
        r == implied_end_tag(t@),
{
    str_eq(t, "dd") || str_eq(t, "dt") || str_eq(t, "li") || str_eq(t, "optgroup") || str_eq(t, "option")
        || str_eq(t, "p") || str_eq(t, "rb") || str_eq(t, "rp") || str_eq(t, "rt") || str_eq(t, "rtc")
}

/// Whether `t` is `h1` to `h6`.
fn is_heading_tag(t: &str) -> (r: bool)
    ensures
        r == is_heading(t@),
{
    str_eq(t, "h1") || str_eq(t, "h2") || str_eq(t, "h3") || str_eq(t, "h4") || str_eq(t, "h5") || str_eq(t, "h6")
}

/// Tab, line feed, form feed, carriage return and space.
fn is_blank(c: char) -> (r: bool)
    ensures
        r == crate::html::construction::blank(c),
{
    c == '\t' || c == '\n' || c == '\u{000C}' || c == '\r' || c == ' '
}

impl HtmlParser {
    /// Returns the tag name of the current node, if the current node is an element.
    fn get_current_elm_name(&self) -> (r: Option<String>)
        requires
            self.inv(),
        ensures
            opt_text(r) == current_elm_name(self.model()),
    {
        match self.current_node() {
            Some(n) => {
                proof {
                    assert(self.stack@[self.stack@.len() - 1] < self.output.nodes@.len());
                }
                match &self.output.nodes[n].node_type {
                    NodeType::Element(elm) => Some(elm.tag_name.clone()),
                    _ => None,
                }
            },
            None => None,
        }
    }

    /// Pops the current node, if there is one.
    fn pop_node(&mut self) -> (r: Option<usize>)
        requires
            old(self).inv(),
        ensures
            final(self).inv(),
            final(self).model() == pop(old(self).model()),
            r == current(old(self).model()),
    {
        let r = self.stack.pop();
        proof {
            assert forall|k: int| 0 <= k < self.stack@.len() implies self.stack@[k] < self.output.nodes@.len() by {
                assert(self.stack@[k] == old(self).stack@[k]);
            }
            if old(self).stack@.len() > 0 {
                assert(self.stack@ =~= old(self).stack@.drop_last());
            }
        }
        r
    }

    /// https://html.spec.whatwg.org/multipage/parsing.html#generate-implied-end-tags
    #[verifier::loop_isolation(false)]
    fn generate_implied_end_tags(&mut self, excluded_tag: Option<&str>)
        requires
            old(self).inv(),
            implied_end_tags(old(self).model(), opt_view_str(excluded_tag)) is Some,
        ensures
            final(self).inv(),
            final(self).model() == implied_end_tags(old(self).model(), opt_view_str(excluded_tag)).unwrap(),
    {
        loop
            invariant
                self.inv(),
                implied_end_tags(old(self).model(), opt_view_str(excluded_tag)) == implied_end_tags(
                    self.model(),
                    opt_view_str(excluded_tag),
                ),
            decreases self.stack@.len(),
        {
            let name = self.get_current_elm_name().unwrap();
            let excluded = match excluded_tag {
                Some(e) => str_eq(name.as_str(), e),
                None => false,
            };
            if is_implied_end_tag(name.as_str()) && !excluded {
                self.pop_node();
            } else {
                return;
            }
        }
    }

    /// Pops the stack of open elements through the first element named `tag`; `false`
    /// where there is none.
    #[verifier::loop_isolation(false)]
    fn pop_through_tag(&mut self, tag: &str) -> (found: bool)
        requires
            old(self).inv(),
        ensures
            final(self).inv(),
            match pop_through(old(self).model().nodes, old(self).model().stack, |t: Seq<char>| t == tag@) {
                Some(st) => found && final(self).model() == (ParserModel { stack: st, ..old(self).model() }),
                None => !found && final(self).model() == (ParserModel { stack: Seq::empty(), ..old(self).model() }),
            },
    {
        let ghost f = |t: Seq<char>| t == tag@;
        loop
            invariant
                self.inv(),
                self.model() == (ParserModel { stack: self.model().stack, ..old(self).model() }),
                pop_through(old(self).model().nodes, old(self).model().stack, f) == pop_through(
                    self.model().nodes,
                    self.model().stack,
                    f,
                ),
            decreases self.stack@.len(),
        {
            match self.pop_node() {
                None => {
                    assert(self.model().stack =~= Seq::<usize>::empty());
                    return false;
                },
                Some(n) => {
                    let hit = match &self.output.nodes[n].node_type {
                        NodeType::Element(elm) => str_eq(elm.tag_name.as_str(), tag),
                        _ => false,
                    };
                    if hit {
                        return true;
                    }
                },
            }
        }
    }

    /// Pops the stack of open elements through the first `h1` to `h6` element; `false`
    /// where there is none.
    #[verifier::loop_isolation(false)]
    fn pop_through_heading(&mut self) -> (found: bool)
        requires
            old(self).inv(),
        ensures
            final(self).inv(),
            match pop_through(old(self).model().nodes, old(self).model().stack, |t: Seq<char>| is_heading(t)) {
                Some(st) => found && final(self).model() == (ParserModel { stack: st, ..old(self).model() }),
                None => !found && final(self).model() == (ParserModel { stack: Seq::empty(), ..old(self).model() }),
            },
    {
        let ghost f = |t: Seq<char>| is_heading(t);
        loop
            invariant
                self.inv(),
                self.model() == (ParserModel { stack: self.model().stack, ..old(self).model() }),
                pop_through(old(self).model().nodes, old(self).model().stack, f) == pop_through(
                    self.model().nodes,
                    self.model().stack,
                    f,
                ),
            decreases self.stack@.len(),
        {
            match self.pop_node() {
                None => {
                    assert(self.model().stack =~= Seq::<usize>::empty());
                    return false;
                },
                Some(n) => {
                    let hit = match &self.output.nodes[n].node_type {
                        NodeType::Element(elm) => is_heading_tag(elm.tag_name.as_str()),
                        _ => false,
                    };
                    if hit {
                        return true;
                    }
                },
            }
        }
    }
}

impl HtmlParser {
    /// https://html.spec.whatwg.org/multipage/parsing.html#the-initial-insertion-mode
    fn parse_initial(&mut self, token: &HtmlToken) -> (r: Result<(), Error>)
        requires
            old(self).inv(),
            !(in_initial(old(self).model(), token@) is Unsupported),
        ensures
            final(self).inv(),
            step_result(r, final(self).model(), in_initial(old(self).model(), token@)),
    {
        match token {
            HtmlToken::Character(c) => {
                if is_blank(*c) {
                    return Ok(());
                }
            },
            HtmlToken::Comment(_) => {
                return Ok(());
            },
            HtmlToken::Doctype { name, public_identifier, system_identifier, .. } => {
                let bad_name = match name {
                    Some(n) => !str_eq(n.as_str(), "html"),
                    None => false,
                };
                let bad_system = match system_identifier {
                    Some(s) => !str_eq(s.as_str(), "about:legacy-compat"),
                    None => false,
                };
                if bad_name || public_identifier.is_some() || bad_system {
                    return Err(Error::HtmlParse(string_of("Invalid doctype")));
                }
                let text = match name {
                    Some(name) => name.clone(),
                    None => String::new(),
                };
                let root = self.output.dom_root;
                self.append_to(root, NodeType::DocumentType(text));
                self.insertion_mode = InsertionMode::BeforeHtml;
                return Ok(());
            },
            _ => {},
        }
        self.insertion_mode = InsertionMode::BeforeHtml;
        self.is_reprocessing_required = true;
        Ok(())
    }

    /// https://html.spec.whatwg.org/multipage/parsing.html#the-before-html-insertion-mode
    fn parse_before_html(&mut self, token: &HtmlToken) -> (r: Result<(), Error>)
        requires
            old(self).inv(),
            !(in_before_html(old(self).model(), token@) is Unsupported),
        ensures
            final(self).inv(),
            step_result(r, final(self).model(), in_before_html(old(self).model(), token@)),
    {
        match token {
            HtmlToken::Doctype { .. } => {
                return Ok(());
            },
            HtmlToken::Character(c) => {
                if is_blank(*c) {
                    return Ok(());
                }
            },
            HtmlToken::StartTag { tag_name, attributes, .. } => {
                if str_eq(tag_name.as_str(), "html") {
                    self.insert_root_element(tag_name.clone(), copy_attrs(attributes));
                    self.insertion_mode = InsertionMode::BeforeHead;
                    return Ok(());
                }
            },
            HtmlToken::EndTag { tag_name, .. } => {
                let t = tag_name.as_str();
                if str_eq(t, "head") || str_eq(t, "body") || str_eq(t, "html") || str_eq(t, "br") {
                    self.insert_root_element(string_of("html"), no_attributes());
                    self.insertion_mode = InsertionMode::BeforeHead;
                }
                return Ok(());
            },
            _ => {},
        }
        self.insert_root_element(string_of("html"), no_attributes());
        self.insertion_mode = InsertionMode::BeforeHead;
        self.is_reprocessing_required = true;
        Ok(())
    }

    /// https://html.spec.whatwg.org/multipage/parsing.html#the-before-head-insertion-mode
    fn parse_before_head(&mut self, token: &HtmlToken) -> (r: Result<(), Error>)
        requires
            old(self).inv(),
            !(in_before_head(old(self).model(), token@) is Unsupported),
        ensures
            final(self).inv(),
            step_result(r, final(self).model(), in_before_head(old(self).model(), token@)),
    {
        match token {
            HtmlToken::Character(c) => {
                if is_blank(*c) {
                    return Ok(());
                }
            },
            HtmlToken::Doctype { .. } => {
                return Ok(());
            },
            HtmlToken::StartTag { tag_name, attributes, .. } => {
                if str_eq(tag_name.as_str(), "head") {
                    self.insert_element(tag_name.clone(), copy_attrs(attributes));
                    self.insertion_mode = InsertionMode::InHead;
                } else {
                    self.insert_element(string_of("head"), no_attributes());
                    self.insertion_mode = InsertionMode::InHead;
                    self.is_reprocessing_required = true;
                }
                return Ok(());
            },
            HtmlToken::EndTag { tag_name, .. } => {
                let t = tag_name.as_str();
                if str_eq(t, "head") || str_eq(t, "body") || str_eq(t, "html") || str_eq(t, "br") {
                    self.insert_element(tag_name.clone(), no_attributes());
                    self.insertion_mode = InsertionMode::InHead;
                    self.is_reprocessing_required = true;
                }
                return Ok(());
            },
            _ => {},
        }
        self.insert_element(string_of("head"), no_attributes());
        self.insertion_mode = InsertionMode::InHead;
        self.is_reprocessing_required = true;
        Ok(())
    }

    /// https://html.spec.whatwg.org/multipage/parsing.html#parsing-main-inhead
    fn parse_in_head(&mut self, token: &HtmlToken) -> (r: Result<(), Error>)
        requires
            old(self).inv(),
            !(in_head(old(self).model(), token@) is Unsupported),
        ensures
            final(self).inv(),
            step_result(r, final(self).model(), in_head(old(self).model(), token@)),
    {
        match token {
            HtmlToken::Character(c) => {
                if is_blank(*c) {
                    self.insert_char_to_token(*c);
                    return Ok(());
                }
            },
            HtmlToken::Comment(comment) => {
                self.insert_comment(comment.clone());
                return Ok(());
            },
            HtmlToken::Doctype { .. } => {
                return Ok(());
            },
            HtmlToken::StartTag { tag_name, attributes, .. } => {
                let t = tag_name.as_str();
                if str_eq(t, "meta") {
                    // The element is inserted and popped at once: the stack is left as it is.
                    let n = self.current_node().unwrap();
                    self.append_to(
                        n,
                        NodeType::Element(Element { tag_name: tag_name.clone(), attributes: copy_attrs(attributes) }),
                    );
                    return Ok(());
                } else if str_eq(t, "title") {
                    self.insert_element(tag_name.clone(), copy_attrs(attributes));
                    self.orig_insertion_mode = Some(InsertionMode::InHead);
                    self.insertion_mode = InsertionMode::Text;
                    return Ok(());
                } else if str_eq(t, "style") {
                    // https://html.spec.whatwg.org/multipage/parsing.html#generic-raw-text-element-parsing-algorithm
                    self.insert_element(tag_name.clone(), copy_attrs(attributes));
                    self.tokenizer.change_state(crate::html::token::TokenizationState::RawText);
                    self.orig_insertion_mode = Some(InsertionMode::InHead);
                    self.insertion_mode = InsertionMode::Text;
                    return Ok(());
                } else if str_eq(t, "head") {
                    return Ok(());
                }
            },
            HtmlToken::EndTag { .. } => {
                let n = self.pop_node().unwrap();
                let is_head = match &self.output.nodes[n].node_type {
                    NodeType::Element(elm) => str_eq(elm.tag_name.as_str(), "head"),
                    _ => false,
                };
                if !is_head {
                    return Err(Error::HtmlParse(string_of("Expected head element")));
                }
                self.insertion_mode = InsertionMode::AfterHead;
                return Ok(());
            },
            _ => {},
        }
        self.pop_node();
        self.insertion_mode = InsertionMode::AfterHead;
        self.is_reprocessing_required = true;
        Ok(())
    }

    /// https://html.spec.whatwg.org/multipage/parsing.html#the-after-head-insertion-mode
    fn parse_after_head(&mut self, token: &HtmlToken) -> (r: Result<(), Error>)
        requires
            old(self).inv(),
            !(in_after_head(old(self).model(), token@) is Unsupported),
        ensures
            final(self).inv(),
            step_result(r, final(self).model(), in_after_head(old(self).model(), token@)),
    {
        match token {
            HtmlToken::Character(c) => {
                if is_blank(*c) {
                    self.insert_char_to_token(*c);
                    return Ok(());
                }
            },
            HtmlToken::Doctype { .. } => {
                return Ok(());
            },
            HtmlToken::StartTag { tag_name, attributes, .. } => {
                let t = tag_name.as_str();
                if str_eq(t, "body") {
                    self.insert_element(tag_name.clone(), copy_attrs(attributes));
                    self.insertion_mode = InsertionMode::InBody;
                    return Ok(());
                } else if str_eq(t, "frameset") {
                    self.insert_element(tag_name.clone(), copy_attrs(attributes));
                    self.insertion_mode = InsertionMode::InFrameset;
                    return Ok(());
                } else if str_eq(t, "head") {
                    return Ok(());
                }
            },
            _ => {},
        }
        self.insert_element(string_of("body"), no_attributes());
        self.insertion_mode = InsertionMode::InBody;
        self.is_reprocessing_required = true;
        Ok(())
    }
}

/// Whether `t` is `address`, `div` or `p`.
fn is_address_div_p(t: &str) -> (r: bool)
    ensures
        r == is_adp(t@),
{
    str_eq(t, "address") || str_eq(t, "div") || str_eq(t, "p")
}

impl HtmlParser {
    /// An open `li` closed, then the new `li` inserted.
    fn close_li_then_insert(&mut self, tag_name: &String, attributes: &Vec<(String, String)>) -> (r: Result<(), Error>)
        requires
            old(self).inv(),
            !(close_li_then_insert(old(self).model(), tag_name@, attrs_view(attributes@)) is Unsupported),
        ensures
            final(self).inv(),
            step_result(r, final(self).model(), close_li_then_insert(old(self).model(), tag_name@, attrs_view(attributes@))),
    {
        self.generate_implied_end_tags(Some("li"));
        self.get_current_elm_name().unwrap();
        if !self.pop_through_tag("li") {
            return Err(Error::HtmlParse(string_of("li element not found")));
        }
        self.insert_element(tag_name.clone(), copy_attrs(attributes));
        Ok(())
    }

    /// The end tag of an element that must be open.
    fn close_element(&mut self, excluded: Option<&str>, tag: &str) -> (r: Result<(), Error>)
        requires
            old(self).inv(),
            !(close_element(old(self).model(), opt_view_str(excluded), |t: Seq<char>| t == tag@) is Unsupported),
        ensures
            final(self).inv(),
            step_result(r, final(self).model(), close_element(old(self).model(), opt_view_str(excluded), |t: Seq<char>| t == tag@)),
    {
        self.generate_implied_end_tags(excluded);
        self.get_current_elm_name().unwrap();
        if !self.pop_through_tag(tag) {
            return Err(Error::HtmlParse(string_of("element not found")));
        }
        Ok(())
    }

    /// https://html.spec.whatwg.org/multipage/parsing.html#parsing-main-inbody
    fn parse_in_body(&mut self, token: &HtmlToken) -> (r: Result<(), Error>)
        requires
            old(self).inv(),
            !(in_body(old(self).model(), token@) is Unsupported),
        ensures
            final(self).inv(),
            step_result(r, final(self).model(), in_body(old(self).model(), token@)),
    {
        match token {
            HtmlToken::Character(c) => {
                if *c != '\u{0000}' {
                    self.insert_char_to_token(*c);
                }
                Ok(())
            },
            HtmlToken::Comment(comment) => {
                self.insert_comment(comment.clone());
                Ok(())
            },
            HtmlToken::Doctype { .. } => Ok(()),
            HtmlToken::StartTag { tag_name, attributes, .. } => self.parse_in_body_start_tag(tag_name, attributes),
            HtmlToken::EndTag { tag_name, .. } => self.parse_in_body_end_tag(tag_name),
            HtmlToken::Eof => {
                self.is_parsing_done = true;
                Ok(())
            },
        }
    }

    /// A start tag in body.
    fn parse_in_body_start_tag(&mut self, tag_name: &String, attributes: &Vec<(String, String)>) -> (r: Result<(), Error>)
        requires
            old(self).inv(),
            !(in_body_start_tag(old(self).model(), tag_name@, attrs_view(attributes@)) is Unsupported),
        ensures
            final(self).inv(),
            step_result(r, final(self).model(), in_body_start_tag(old(self).model(), tag_name@, attrs_view(attributes@))),
    {
        let t = tag_name.as_str();
        if str_eq(t, "a") || str_eq(t, "div") || str_eq(t, "p") || str_eq(t, "ul") {
            self.insert_element(tag_name.clone(), copy_attrs(attributes));
            Ok(())
        } else if is_heading_tag(t) {
            let need_to_pop = match self.get_current_elm_name() {
                Some(name) => is_heading_tag(name.as_str()),
                None => false,
            };
            if need_to_pop {
                self.pop_node();
            }
            self.insert_element(tag_name.clone(), copy_attrs(attributes));
            Ok(())
        } else if str_eq(t, "li") {
            self.parse_li_start_tag(tag_name, attributes)
        } else {
            // "br"
            self.insert_element(tag_name.clone(), copy_attrs(attributes));
            self.pop_node();
            Ok(())
        }
    }

    /// An end tag in body.
    fn parse_in_body_end_tag(&mut self, tag_name: &String) -> (r: Result<(), Error>)
        requires
            old(self).inv(),
            !(in_body_end_tag(old(self).model(), tag_name@) is Unsupported),
        ensures
            final(self).inv(),
            step_result(r, final(self).model(), in_body_end_tag(old(self).model(), tag_name@)),
    {
        let t = tag_name.as_str();
        if str_eq(t, "a") {
            self.get_current_elm_name().unwrap();
            if !self.pop_through_tag("a") {
                return Err(Error::HtmlParse(string_of("a element not found")));
            }
            Ok(())
        } else if str_eq(t, "body") {
            self.insertion_mode = InsertionMode::AfterBody;
            Ok(())
        } else if str_eq(t, "div") || str_eq(t, "ul") {
            self.generate_implied_end_tags(None);
            self.get_current_elm_name().unwrap();
            assert((|x: Seq<char>| x == t@) =~= (|x: Seq<char>| x == tag_name@));
            self.pop_through_tag(t);
            Ok(())
        } else if str_eq(t, "p") {
            self.close_element(Some("p"), "p")
        } else if str_eq(t, "li") {
            self.close_element(Some("li"), "li")
        } else {
            // "h1" to "h6"
            self.generate_implied_end_tags(None);
            self.get_current_elm_name().unwrap();
            if !self.pop_through_heading() {
                return Err(Error::HtmlParse(string_of("h1-h6 element not found")));
            }
            Ok(())
        }
    }

    /// The `li` start tag in body.
    fn parse_li_start_tag(&mut self, tag_name: &String, attributes: &Vec<(String, String)>) -> (r: Result<(), Error>)
        requires
            old(self).inv(),
            !(in_body_li(old(self).model(), tag_name@, attrs_view(attributes@)) is Unsupported),
        ensures
            final(self).inv(),
            step_result(r, final(self).model(), in_body_li(old(self).model(), tag_name@, attrs_view(attributes@))),
    {
        let node_type = self.get_current_elm_name().unwrap();
        if str_eq(node_type.as_str(), "li") {
            return self.close_li_then_insert(tag_name, attributes);
        }
        if is_address_div_p(node_type.as_str()) {
            // This is quite simplified: only the previous entry of the stack is looked at.
            let n = self.stack[self.stack.len() - 2];
            proof {
                assert(self.stack@[self.stack@.len() - 2] < self.output.nodes@.len());
            }
            let name2 = match &self.output.nodes[n].node_type {
                NodeType::Element(elm) => elm.tag_name.clone(),
                _ => {
                    return Err(Error::HtmlParse(string_of("The node is not an element")));
                },
            };
            if str_eq(name2.as_str(), "li") {
                return self.close_li_then_insert(tag_name, attributes);
            }
        }
        self.insert_element(tag_name.clone(), copy_attrs(attributes));
        Ok(())
    }
}

impl HtmlParser {
    /// https://html.spec.whatwg.org/multipage/semantics.html#update-a-style-block
    fn update_style_block(&mut self, node: usize) -> (r: Result<(), Error>)
        requires
            old(self).inv(),
            node < old(self).output.nodes@.len(),
            !(update_style_block(old(self).model(), node) is Unsupported),
        ensures
            final(self).inv(),
            step_result(r, final(self).model(), update_style_block(old(self).model(), node)),
    {
        // When the user agent should parse the CSS of a new style sheet is not clearly defined:
        // https://github.com/whatwg/html/issues/2997
        let k = self.output.nodes[node].children.len();
        let l = self.output.nodes[node].children[k - 1];
        proof {
            assert(node_linked(self.output.nodes@, node as int));
            assert(crate::html::dom::child_linked(self.output.nodes@, node as int, k - 1));
        }
        let sheet = match &self.output.nodes[l].node_type {
            NodeType::Text(css) => {
                let mut tokenizer = CssTokenizer::new(css.as_str());
                let tokens = tokenizer.tokenize()?;
                let sheet = parse_style_sheet(&tokens)?;
                Some(sheet)
            },
            _ => None,
        };
        if let Some(sheet) = sheet {
            let ghost before = self.output.style_sheets@;
            self.output.style_sheets.push(sheet);
            assert(sheets_view(self.output.style_sheets@) =~= sheets_view(before).push(rules_view(sheet.rules@)));
        }
        Ok(())
    }

    /// The end tag of the element whose text is being read.
    fn end_text(&mut self, tag_name: &String) -> (r: Result<(), Error>)
        requires
            old(self).inv(),
            !(end_text(old(self).model(), tag_name@) is Unsupported),
        ensures
            final(self).inv(),
            step_result(r, final(self).model(), end_text(old(self).model(), tag_name@)),
    {
        let n = self.pop_node().unwrap();
        proof {
            assert(old(self).stack@[old(self).stack@.len() - 1] < old(self).output.nodes@.len());
        }
        if str_eq(tag_name.as_str(), "title") {
            let c = self.output.nodes[n].children[0];
            let text = self.output.nodes[c].get_inside_text().unwrap();
            self.output.title = Some(text);
        }
        if str_eq(tag_name.as_str(), "style") {
            self.update_style_block(n)?;
        }
        self.insertion_mode = self.orig_insertion_mode.unwrap();
        Ok(())
    }

    /// https://html.spec.whatwg.org/multipage/parsing.html#parsing-main-incdata
    fn parse_text(&mut self, token: &HtmlToken) -> (r: Result<(), Error>)
        requires
            old(self).inv(),
            !(in_text(old(self).model(), token@) is Unsupported),
        ensures
            final(self).inv(),
            step_result(r, final(self).model(), in_text(old(self).model(), token@)),
    {
        match token {
            HtmlToken::Character(c) => {
                self.insert_char_to_token(*c);
                Ok(())
            },
            HtmlToken::EndTag { tag_name, .. } => self.end_text(tag_name),
            _ => Ok(()),
        }
    }

    /// https://html.spec.whatwg.org/multipage/parsing.html#parsing-main-afterbody
    fn parse_after_body(&mut self, token: &HtmlToken) -> (r: Result<(), Error>)
        requires
            old(self).inv(),
            !(in_after_body(old(self).model(), token@) is Unsupported),
        ensures
            final(self).inv(),
            step_result(r, final(self).model(), in_after_body(old(self).model(), token@)),
    {
        match token {
            HtmlToken::Character(c) => {
                if is_blank(*c) {
                    self.insert_char_to_token(*c);
                }
            },
            HtmlToken::EndTag { .. } => {
                self.insertion_mode = InsertionMode::AfterAfterBody;
            },
            HtmlToken::Eof => {
                self.is_parsing_done = true;
            },
            _ => {},
        }
        Ok(())
    }

    /// https://html.spec.whatwg.org/multipage/parsing.html#the-after-after-body-insertion-mode
    fn parse_after_after_body(&mut self, token: &HtmlToken) -> (r: Result<(), Error>)
        requires
            old(self).inv(),
            !(in_after_after_body(old(self).model(), token@) is Unsupported),
        ensures
            final(self).inv(),
            step_result(r, final(self).model(), in_after_after_body(old(self).model(), token@)),
    {
        match token {
            HtmlToken::Doctype { .. } => {},
            HtmlToken::Character(c) => {
                if is_blank(*c) {
                    self.insert_char_to_token(*c);
                } else {
                    self.insertion_mode = InsertionMode::InBody;
                    self.is_parsing_done = true;
                }
            },
            HtmlToken::Eof => {
                self.is_parsing_done = true;
            },
            _ => {
                self.insertion_mode = InsertionMode::InBody;
                self.is_parsing_done = true;
            },
        }
        Ok(())
    }

    /// The token processed in the current insertion mode.
    fn dispatch(&mut self, token: &HtmlToken) -> (r: Result<(), Error>)
        requires
            old(self).inv(),
            !(dispatch(old(self).model(), token@) is Unsupported),
        ensures
            final(self).inv(),
            step_result(r, final(self).model(), dispatch(old(self).model(), token@)),
    {
        match self.insertion_mode {
            InsertionMode::Initial => self.parse_initial(token),
            InsertionMode::BeforeHtml => self.parse_before_html(token),
            InsertionMode::BeforeHead => self.parse_before_head(token),
            InsertionMode::InHead => self.parse_in_head(token),
            InsertionMode::AfterHead => self.parse_after_head(token),
            InsertionMode::InBody => self.parse_in_body(token),
            InsertionMode::Text => self.parse_text(token),
            InsertionMode::AfterBody => self.parse_after_body(token),
            InsertionMode::AfterAfterBody => self.parse_after_after_body(token),
            InsertionMode::InFrameset => Ok(()),
        }
    }

    /// The token processed, and processed again for as long as a mode asks.
    #[verifier::loop_isolation(false)]
    fn process_token(&mut self, token: &HtmlToken) -> (r: Result<(), Error>)
        requires
            old(self).inv(),
            !old(self).model().reprocess,
            !(process(old(self).model(), token@) is Unsupported),
        ensures
            final(self).inv(),
            r is Ok ==> !final(self).model().reprocess,
            step_result(r, final(self).model(), process(old(self).model(), token@)),
    {
        loop
            invariant
                self.inv(),
                !self.model().reprocess,
                process(old(self).model(), token@) == process(self.model(), token@),
            decreases mode_rank(self.model().mode),
        {
            let ghost before = self.model();
            self.dispatch(token)?;
            if !self.is_reprocessing_required {
                return Ok(());
            }
            self.is_reprocessing_required = false;
            assert(self.model() == (ParserModel { reprocess: false, ..dispatch(before, token@)->Next_0 }));
        }
    }

    /// Parses the whole document: its nodes (the document node first), its style sheets
    /// and its title. The document must hold only what tree construction supports: on
    /// other tokens the parser panics (or, for an `li` start tag under two nested
    /// `address`, `div` or `p` elements, runs on without end), and those runs end in
    /// `Unsupported`.
    #[verifier::loop_isolation(false)]
    pub fn parse(&mut self) -> (r: Result<ParsedObject, Error>)
        requires
            old(self).inv(),
            !old(self).model().reprocess,
            !(parse_outcome(old(self).model()) is Unsupported),
        ensures
            match parse_outcome(old(self).model()) {
                Outcome::Finished(pm) => r matches Ok(out) && out.dom_root == 0 && arena_view(out.nodes@)
                    == pm.nodes && well_linked(out.nodes@) && opt_text(out.title) == pm.title && sheets_view(
                    out.style_sheets@,
                ) == pm.sheets,
                Outcome::Failed(f) => r matches Err(e) && is_failure(e, f),
                _ => false,
            },
    {
        let ghost mut fuel: nat = run_weight(old(self).model()) + 1;
        proof {
            lemma_run_ends(old(self).model(), fuel);
        }
        loop
            invariant
                self.inv(),
                !self.model().reprocess,
                parse_outcome(old(self).model()) == run_parser(self.model(), fuel),
                run_parser(self.model(), fuel) is Finished || run_parser(self.model(), fuel) is Failed,
            decreases fuel,
        {
            if self.is_parsing_done {
                break;
            }
            proof {
                lemma_consume_weight(self.tokenizer@);
            }
            let token = self.tokenizer.consume();
            self.process_token(&token)?;
            proof {
                fuel = (fuel - 1) as nat;
            }
        }
        let mut out = ParsedObject { dom_root: 0, nodes: Vec::new(), style_sheets: Vec::new(), title: None };
        std::mem::swap(&mut out, &mut self.output);
        Ok(out)
    }
}

/// `Some(s@)` for `Some(s)`.
pub open spec fn opt_view_str(o: Option<&str>) -> Option<Seq<char>> {
    match o {
        Some(s) => Some(s@),
        None => None,
    }
}
} // verus!
