//! Selectors and their matching against the document tree.
//!
//! - https://www.w3.org/TR/selectors-3/#simple-selectors
//! - https://www.w3.org/TR/selectors-3/#grammar
use vstd::prelude::*;

use crate::css::cssom::{ComponentValue, ComponentValueModel, cv_view, cvs_view, lemma_cvs_view};
use crate::css::selector_syntax::{
    SelectorModel, SimpleSelectorModel, attrib, attrib_body, attrib_op, attribs, class, classes,
    combinator, element_name, hashes, ident_name, is_combinator_delim, is_delim, is_ident,
    more_selectors, namespace_prefix, opt_view, pseudo, pseudos, selector, selector_view,
    selectors_group, selectors_view, seq_head, seq_tail, simple_selector_seq, simple_view,
    simples_view, skip_ws, starts_prefix, tok, type_selector, universal,
};
use crate::css::token::CssToken;
use crate::css::tokenization::CssTokenModel;
use crate::error::Error;
use crate::html::dom::{DomNode, NodeType, well_linked, node_linked};
use crate::text::{chars_of, str_eq, string_of, string_of_char, string_push};

verus! {

broadcast use {vstd::seq::group_seq_axioms, crate::css::cssom::lemma_cvs_view};

/// A simple selector.
#[derive(Clone, Debug, PartialEq)]
pub enum SimpleSelector {
    Type { namespace_prefix: Option<String>, name: String },
    /// The universal selector, with its namespace prefix.
    Universal(Option<String>),
    Attribute {
        namespace_prefix: Option<String>,
        name: String,
        op: Option<String>,
        value: Option<String>,
    },
    Class(String),
    Id(String),
    PseudoClass(String),
}

/// How the selectors of a sequence are joined: https://www.w3.org/TR/selectors-3/#combinators
#[derive(Clone, Copy, Debug, PartialEq, Eq, Structural)]
pub enum Combinator {
    Whitespace,
    GreaterThan,
    Plus,
    Tilde,
}

/// https://www.w3.org/TR/selectors-3/#selector-syntax
///
/// The left side of a complex selector is a simple selector sequence: selectors
/// associate to the right.
#[derive(Debug, PartialEq)]
pub enum Selector {
    Simple(Vec<SimpleSelector>),
    Complex(Box<Selector>, Combinator, Box<Selector>),
}

/// `w` is one of the pieces of `v` split at each space.
pub open spec fn has_word(v: Seq<char>, w: Seq<char>) -> bool {
    &&& !w.contains(' ')
    &&& exists|i: int|
        #![trigger v.subrange(i, i + w.len())]
        0 <= i && i + w.len() <= v.len() && (i == 0 || v[i - 1] == ' ') && (i + w.len() == v.len()
            || v[i + w.len()] == ' ') && v.subrange(i, i + w.len()) == w
}

/// Some attribute is named `name`.
pub open spec fn has_attr(attrs: Seq<(String, String)>, name: Seq<char>) -> bool {
    exists|k: int| 0 <= k < attrs.len() && (#[trigger] attrs[k]).0@ == name
}

/// Some attribute is named `name` and has the value `value`.
pub open spec fn has_attr_value(attrs: Seq<(String, String)>, name: Seq<char>, value: Seq<char>) -> bool {
    exists|k: int| 0 <= k < attrs.len() && (#[trigger] attrs[k]).0@ == name && attrs[k].1@ == value
}

/// Some `class` attribute lists `class` among its space-separated names.
pub open spec fn has_class(attrs: Seq<(String, String)>, class: Seq<char>) -> bool {
    exists|k: int| 0 <= k < attrs.len() && (#[trigger] attrs[k]).0@ == "class"@ && has_word(attrs[k].1@, class)
}

/// Whether a simple selector matches a node of type `n`; `None` for the selectors
/// whose matching is not supported (universal, attribute, and type selectors with
/// a namespace prefix).
pub open spec fn simple_match(s: SimpleSelector, n: NodeType) -> Option<bool> {
    match s {
        SimpleSelector::Type { namespace_prefix, name } => {
            if namespace_prefix is Some {
                None
            } else {
                Some(n matches NodeType::Element(e) && e.tag_name@ == name@)
            }
        },
        SimpleSelector::Class(c) => Some(n matches NodeType::Element(e) && has_class(e.attributes@, c@)),
        SimpleSelector::Id(id) => Some(
            n matches NodeType::Element(e) && has_attr_value(e.attributes@, "id"@, id@),
        ),
        SimpleSelector::PseudoClass(c) => Some(
            n matches NodeType::Element(e) && c@ == "link"@ && has_attr(e.attributes@, "href"@),
        ),
        _ => None,
    }
}

/// The selectors of `l` from the `k`-th on, tried in order, all match `n`; `None`
/// where an unsupported selector is reached before one fails.
pub open spec fn all_match(l: Seq<SimpleSelector>, n: NodeType, k: int) -> Option<bool>
    decreases l.len() - k,
{
    if k < 0 || k >= l.len() {
        Some(true)
    } else {
        match simple_match(l[k], n) {
            None => None,
            Some(false) => Some(false),
            Some(true) => all_match(l, n, k + 1),
        }
    }
}

/// Where a walk stops: `Some(found)` with the node found, if any; `None` where an
/// unsupported selector is reached.
pub open spec fn found_at(m: Option<bool>, a: int) -> Option<Option<usize>> {
    match m {
        None => None,
        Some(true) => Some(Some(a as usize)),
        Some(false) => Some(None),
    }
}

/// The first of `a` and its ancestors, nearest first, that all the selectors of `l` match.
pub open spec fn ancestor_walk(t: Seq<DomNode>, l: Seq<SimpleSelector>, a: int) -> Option<Option<usize>>
    decreases a,
{
    if !(0 <= a < t.len()) {
        Some(None)
    } else {
        match all_match(l, t[a].node_type, 0) {
            Some(false) => match t[a].parent {
                Some(p) => if p < a {
                    ancestor_walk(t, l, p as int)
                } else {
                    Some(None)
                },
                None => Some(None),
            },
            m => found_at(m, a),
        }
    }
}

/// The first element among `s` and its earlier siblings, nearest first, if all the
/// selectors of `l` match it.
pub open spec fn adjacent_walk(t: Seq<DomNode>, l: Seq<SimpleSelector>, s: int) -> Option<Option<usize>>
    decreases s,
{
    if !(0 <= s < t.len()) {
        Some(None)
    } else if t[s].node_type is Element {
        found_at(all_match(l, t[s].node_type, 0), s)
    } else {
        match t[s].prev_sibling {
            Some(q) => if q < s {
                adjacent_walk(t, l, q as int)
            } else {
                Some(None)
            },
            None => Some(None),
        }
    }
}

/// The first element among `s` and its earlier siblings, nearest first, that all the
/// selectors of `l` match.
pub open spec fn sibling_walk(t: Seq<DomNode>, l: Seq<SimpleSelector>, s: int) -> Option<Option<usize>>
    decreases s,
{
    if !(0 <= s < t.len()) {
        Some(None)
    } else {
        let m = if t[s].node_type is Element {
            all_match(l, t[s].node_type, 0)
        } else {
            Some(false)
        };
        match m {
            Some(false) => match t[s].prev_sibling {
                Some(q) => if q < s {
                    sibling_walk(t, l, q as int)
                } else {
                    Some(None)
                },
                None => Some(None),
            },
            _ => found_at(m, s),
        }
    }
}

/// The node that the left side `l` of a complex selector picks out, given the node `r`
/// that its right side picked out.
pub open spec fn combine(t: Seq<DomNode>, l: Seq<SimpleSelector>, c: Combinator, r: int) -> Option<Option<usize>> {
    match c {
        Combinator::Whitespace => match t[r].parent {
            Some(p) => ancestor_walk(t, l, p as int),
            None => Some(None),
        },
        Combinator::GreaterThan => match t[r].parent {
            Some(p) => found_at(all_match(l, t[p as int].node_type, 0), p as int),
            None => Some(None),
        },
        Combinator::Plus => match t[r].prev_sibling {
            Some(s) => adjacent_walk(t, l, s as int),
            None => Some(None),
        },
        Combinator::Tilde => match t[r].prev_sibling {
            Some(s) => sibling_walk(t, l, s as int),
            None => Some(None),
        },
    }
}

/// Evaluating selector `sel` from node `x` of the arena `t`, right to left: the node
/// that its leftmost part matched, or `Some(None)` where it does not match, or `None`
/// where matching is not supported (an unsupported simple selector is reached, or the
/// left side of a complex selector is not a simple selector sequence).
pub open spec fn select(t: Seq<DomNode>, sel: Selector, x: int) -> Option<Option<usize>>
    decreases sel,
{
    match sel {
        Selector::Simple(l) => match all_match(l@, t[x].node_type, 0) {
            None => None,
            Some(b) => Some(if b { Some(x as usize) } else { None }),
        },
        Selector::Complex(left, c, right) => match *left {
            Selector::Simple(l) => match select(t, *right, x) {
                None => None,
                Some(None) => Some(None),
                Some(Some(r)) => if 0 <= r < t.len() {
                    combine(t, l@, c, r as int)
                } else {
                    Some(None)
                },
            },
            _ => None,
        },
    }
}

/// Node `b` is a proper ancestor of node `x`: its parent, or an ancestor of its parent.
pub open spec fn is_ancestor(t: Seq<DomNode>, b: int, x: int) -> bool
    decreases x,
{
    if 0 <= x < t.len() {
        match t[x].parent {
            Some(p) => if p < x {
                b == p || is_ancestor(t, b, p as int)
            } else {
                false
            },
            None => false,
        }
    } else {
        false
    }
}

/// A simple selector whose matching is supported.
pub open spec fn supported(s: SimpleSelector) -> bool {
    ||| s matches SimpleSelector::Type { namespace_prefix: None, .. }
    ||| s is Class
    ||| s is Id
    ||| s is PseudoClass
}

/// The supported simple selectors (type selectors without a namespace prefix, class,
/// ID and pseudo-class selectors) can be matched against every node.
pub proof fn lemma_supported_matches(s: SimpleSelector, n: NodeType)
    requires
        supported(s),
    ensures
        simple_match(s, n) is Some,
{
}

proof fn lemma_all_match_supported(l: Seq<SimpleSelector>, n: NodeType, k: int)
    requires
        forall|j: int| 0 <= j < l.len() ==> supported(#[trigger] l[j]),
    ensures
        all_match(l, n, k) is Some,
    decreases l.len() - k,
{
    if 0 <= k < l.len() {
        assert(supported(l[k]));
        lemma_all_match_supported(l, n, k + 1);
    }
}

proof fn lemma_ancestor_walk(t: Seq<DomNode>, l: Seq<SimpleSelector>, a: int)
    requires
        well_linked(t),
        0 <= a < t.len(),
        forall|j: int| 0 <= j < l.len() ==> supported(#[trigger] l[j]),
    ensures
        ancestor_walk(t, l, a) is Some,
        ancestor_walk(t, l, a) != Some(None::<usize>) <==> exists|b: int|
            (b == a || is_ancestor(t, b, a)) && #[trigger] all_match(l, t[b].node_type, 0) == Some(true),
    decreases a,
{
    lemma_all_match_supported(l, t[a].node_type, 0);
    assert(node_linked(t, a));
    if all_match(l, t[a].node_type, 0) == Some(true) {
        assert((a == a || is_ancestor(t, a, a)) && all_match(l, t[a].node_type, 0) == Some(true));
    } else {
        match t[a].parent {
            Some(p) => {
                lemma_ancestor_walk(t, l, p as int);
                if ancestor_walk(t, l, p as int) != Some(None::<usize>) {
                    let b = choose|b: int|
                        (b == p || is_ancestor(t, b, p as int)) && #[trigger] all_match(l, t[b].node_type, 0) == Some(true);
                    assert(is_ancestor(t, b, a));
                }
                assert forall|b: int|
                    (b == a || is_ancestor(t, b, a)) && #[trigger] all_match(l, t[b].node_type, 0) == Some(true)
                    implies ancestor_walk(t, l, p as int) != Some(None::<usize>) by {
                    assert(b == p || is_ancestor(t, b, p as int));
                }
            },
            None => {
                assert forall|b: int|
                    (b == a || is_ancestor(t, b, a)) implies #[trigger] all_match(l, t[b].node_type, 0) != Some(true) by {
                }
            },
        }
    }
}

/// The descendant combinator: `l r` matches node `n` exactly when `r` matches `n` and
/// `l` matches some proper ancestor of `n` (its parent, grandparent, and so on); so it
/// never matches a node without a parent.
pub proof fn lemma_descendant(t: Seq<DomNode>, l: Vec<SimpleSelector>, r: Vec<SimpleSelector>, n: int)
    requires
        well_linked(t),
        0 <= n < t.len() <= usize::MAX,
        forall|j: int| 0 <= j < l@.len() ==> supported(#[trigger] l@[j]),
        forall|j: int| 0 <= j < r@.len() ==> supported(#[trigger] r@[j]),
    ensures
        select(t, Selector::Complex(Box::new(Selector::Simple(l)), Combinator::Whitespace, Box::new(Selector::Simple(r))), n) is Some,
        select(t, Selector::Complex(Box::new(Selector::Simple(l)), Combinator::Whitespace, Box::new(Selector::Simple(r))), n)
            != Some(None::<usize>) <==> all_match(r@, t[n].node_type, 0) == Some(true) && exists|b: int|
            is_ancestor(t, b, n) && #[trigger] all_match(l@, t[b].node_type, 0) == Some(true),
{
    lemma_all_match_supported(r@, t[n].node_type, 0);
    assert(node_linked(t, n));
    let sel = Selector::Complex(Box::new(Selector::Simple(l)), Combinator::Whitespace, Box::new(Selector::Simple(r)));
    let right = Selector::Simple(r);
    assert(select(t, right, n) == match all_match(r@, t[n].node_type, 0) {
        None => None,
        Some(b) => Some(if b { Some(n as usize) } else { None }),
    });
    if all_match(r@, t[n].node_type, 0) == Some(true) {
        assert(select(t, right, n) == Some(Some(n as usize)));
        assert(select(t, sel, n) == combine(t, l@, Combinator::Whitespace, n));
        match t[n].parent {
            Some(p) => {
                lemma_ancestor_walk(t, l@, p as int);
                assert(select(t, sel, n) == ancestor_walk(t, l@, p as int));
                if ancestor_walk(t, l@, p as int) != Some(None::<usize>) {
                    let b = choose|b: int|
                        (b == p || is_ancestor(t, b, p as int)) && #[trigger] all_match(l@, t[b].node_type, 0) == Some(true);
                    assert(is_ancestor(t, b, n));
                }
                assert forall|b: int|
                    is_ancestor(t, b, n) && #[trigger] all_match(l@, t[b].node_type, 0) == Some(true)
                    implies ancestor_walk(t, l@, p as int) != Some(None::<usize>) by {
                    assert(b == p || is_ancestor(t, b, p as int));
                }
            },
            None => {
                assert forall|b: int| is_ancestor(t, b, n) implies #[trigger] all_match(l@, t[b].node_type, 0) != Some(true) by {
                }
            },
        }
    }
}

/// Node `b` is an earlier sibling of node `x`: its previous sibling, or an earlier
/// sibling of that one.
pub open spec fn is_earlier_sibling(t: Seq<DomNode>, b: int, x: int) -> bool
    decreases x,
{
    if 0 <= x < t.len() {
        match t[x].prev_sibling {
            Some(q) => if q < x {
                b == q || is_earlier_sibling(t, b, q as int)
            } else {
                false
            },
            None => false,
        }
    } else {
        false
    }
}

proof fn lemma_sibling_walk(t: Seq<DomNode>, l: Seq<SimpleSelector>, s: int)
    requires
        well_linked(t),
        0 <= s < t.len(),
        forall|j: int| 0 <= j < l.len() ==> supported(#[trigger] l[j]),
    ensures
        sibling_walk(t, l, s) is Some,
        sibling_walk(t, l, s) != Some(None::<usize>) <==> exists|b: int|
            (b == s || is_earlier_sibling(t, b, s)) && t[b].node_type is Element && #[trigger] all_match(
                l,
                t[b].node_type,
                0,
            ) == Some(true),
    decreases s,
{
    lemma_all_match_supported(l, t[s].node_type, 0);
    assert(node_linked(t, s));
    if t[s].node_type is Element && all_match(l, t[s].node_type, 0) == Some(true) {
        assert((s == s || is_earlier_sibling(t, s, s)) && t[s].node_type is Element && all_match(
            l,
            t[s].node_type,
            0,
        ) == Some(true));
    } else {
        match t[s].prev_sibling {
            Some(q) => {
                lemma_sibling_walk(t, l, q as int);
                if sibling_walk(t, l, q as int) != Some(None::<usize>) {
                    let b = choose|b: int|
                        (b == q || is_earlier_sibling(t, b, q as int)) && t[b].node_type is Element
                            && #[trigger] all_match(l, t[b].node_type, 0) == Some(true);
                    assert(is_earlier_sibling(t, b, s));
                }
                assert forall|b: int|
                    (b == s || is_earlier_sibling(t, b, s)) && t[b].node_type is Element && #[trigger] all_match(
                        l,
                        t[b].node_type,
                        0,
                    ) == Some(true) implies sibling_walk(t, l, q as int) != Some(None::<usize>) by {
                    assert(b == q || is_earlier_sibling(t, b, q as int));
                }
            },
            None => {
                assert forall|b: int|
                    (b == s || is_earlier_sibling(t, b, s)) && t[b].node_type is Element implies #[trigger] all_match(
                        l,
                        t[b].node_type,
                        0,
                    ) != Some(true) by {
                }
            },
        }
    }
}

/// The general sibling combinator: `l ~ r` matches node `n` exactly when `r` matches
/// `n` and `l` matches some earlier element sibling of `n` (not only the nearest one).
pub proof fn lemma_general_sibling(t: Seq<DomNode>, l: Vec<SimpleSelector>, r: Vec<SimpleSelector>, n: int)
    requires
        well_linked(t),
        0 <= n < t.len() <= usize::MAX,
        forall|j: int| 0 <= j < l@.len() ==> supported(#[trigger] l@[j]),
        forall|j: int| 0 <= j < r@.len() ==> supported(#[trigger] r@[j]),
    ensures
        select(t, Selector::Complex(Box::new(Selector::Simple(l)), Combinator::Tilde, Box::new(Selector::Simple(r))), n) is Some,
        select(t, Selector::Complex(Box::new(Selector::Simple(l)), Combinator::Tilde, Box::new(Selector::Simple(r))), n)
            != Some(None::<usize>) <==> all_match(r@, t[n].node_type, 0) == Some(true) && exists|b: int|
            is_earlier_sibling(t, b, n) && t[b].node_type is Element && #[trigger] all_match(l@, t[b].node_type, 0)
                == Some(true),
{
    lemma_all_match_supported(r@, t[n].node_type, 0);
    assert(node_linked(t, n));
    let sel = Selector::Complex(Box::new(Selector::Simple(l)), Combinator::Tilde, Box::new(Selector::Simple(r)));
    let right = Selector::Simple(r);
    assert(select(t, right, n) == match all_match(r@, t[n].node_type, 0) {
        None => None,
        Some(b) => Some(if b { Some(n as usize) } else { None }),
    });
    if all_match(r@, t[n].node_type, 0) == Some(true) {
        assert(select(t, right, n) == Some(Some(n as usize)));
        assert(select(t, sel, n) == combine(t, l@, Combinator::Tilde, n));
        match t[n].prev_sibling {
            Some(q) => {
                lemma_sibling_walk(t, l@, q as int);
                assert(select(t, sel, n) == sibling_walk(t, l@, q as int));
                if sibling_walk(t, l@, q as int) != Some(None::<usize>) {
                    let b = choose|b: int|
                        (b == q || is_earlier_sibling(t, b, q as int)) && t[b].node_type is Element
                            && #[trigger] all_match(l@, t[b].node_type, 0) == Some(true);
                    assert(is_earlier_sibling(t, b, n));
                }
                assert forall|b: int|
                    is_earlier_sibling(t, b, n) && t[b].node_type is Element && #[trigger] all_match(
                        l@,
                        t[b].node_type,
                        0,
                    ) == Some(true) implies sibling_walk(t, l@, q as int) != Some(None::<usize>) by {
                    assert(b == q || is_earlier_sibling(t, b, q as int));
                }
            },
            None => {
                assert forall|b: int| is_earlier_sibling(t, b, n) implies #[trigger] all_match(
                    l@,
                    t[b].node_type,
                    0,
                ) != Some(true) by {
                }
            },
        }
    }
}

proof fn lemma_earlier_lt(t: Seq<DomNode>, b: int, x: int)
    requires
        is_earlier_sibling(t, b, x),
    ensures
        b < x,
    decreases x,
{
    let q = t[x].prev_sibling.unwrap() as int;
    if b != q {
        lemma_earlier_lt(t, b, q);
    }
}

/// Node `b` is the nearest element among `s` and its earlier siblings: an element, with
/// no element between it and `s`.
pub open spec fn nearest_element(t: Seq<DomNode>, b: int, s: int) -> bool {
    &&& (b == s || is_earlier_sibling(t, b, s))
    &&& t[b].node_type is Element
    &&& forall|c: int|
        (c == s || is_earlier_sibling(t, c, s)) && #[trigger] is_earlier_sibling(t, b, c) ==> !(t[c].node_type is Element)
}

proof fn lemma_adjacent_walk(t: Seq<DomNode>, l: Seq<SimpleSelector>, s: int)
    requires
        well_linked(t),
        0 <= s < t.len(),
        forall|j: int| 0 <= j < l.len() ==> supported(#[trigger] l[j]),
    ensures
        adjacent_walk(t, l, s) is Some,
        adjacent_walk(t, l, s) != Some(None::<usize>) <==> exists|b: int|
            nearest_element(t, b, s) && #[trigger] all_match(l, t[b].node_type, 0) == Some(true),
    decreases s,
{
    lemma_all_match_supported(l, t[s].node_type, 0);
    assert(node_linked(t, s));
    if t[s].node_type is Element {
        if all_match(l, t[s].node_type, 0) == Some(true) {
            assert forall|c: int| (c == s || is_earlier_sibling(t, c, s)) && #[trigger] is_earlier_sibling(t, s, c)
                implies !(t[c].node_type is Element) by {
                lemma_earlier_lt(t, s, c);
                if c != s {
                    lemma_earlier_lt(t, c, s);
                }
            }
            assert(nearest_element(t, s, s));
        }
        assert forall|b: int| nearest_element(t, b, s) implies b == s by {
            if b != s {
                assert(is_earlier_sibling(t, b, s));
                assert(!(t[s].node_type is Element));
            }
        }
    } else {
        match t[s].prev_sibling {
            Some(q) => {
                let q = q as int;
                lemma_adjacent_walk(t, l, q);
                if adjacent_walk(t, l, q) != Some(None::<usize>) {
                    let b = choose|b: int| nearest_element(t, b, q) && #[trigger] all_match(l, t[b].node_type, 0) == Some(true);
                    assert(is_earlier_sibling(t, b, s));
                    assert forall|c: int| (c == s || is_earlier_sibling(t, c, s)) && #[trigger] is_earlier_sibling(t, b, c)
                        implies !(t[c].node_type is Element) by {
                        if c != s {
                            assert(c == q || is_earlier_sibling(t, c, q));
                        }
                    }
                    assert(nearest_element(t, b, s));
                }
                assert forall|b: int| nearest_element(t, b, s) && #[trigger] all_match(l, t[b].node_type, 0) == Some(true)
                    implies adjacent_walk(t, l, q) != Some(None::<usize>) by {
                    assert(b != s);
                    assert(b == q || is_earlier_sibling(t, b, q));
                    assert forall|c: int| (c == q || is_earlier_sibling(t, c, q)) && #[trigger] is_earlier_sibling(t, b, c)
                        implies !(t[c].node_type is Element) by {
                        assert(is_earlier_sibling(t, c, s));
                    }
                    assert(nearest_element(t, b, q));
                }
            },
            None => {
                assert forall|b: int| nearest_element(t, b, s) implies #[trigger] all_match(l, t[b].node_type, 0) != Some(true) by {
                    assert(b != s);
                }
            },
        }
    }
}

/// The adjacent sibling combinator: `l + r` matches node `n` exactly when `r` matches
/// `n` and `l` matches the nearest element before `n` among its siblings (nodes other
/// than elements between them are passed over).
pub proof fn lemma_adjacent_sibling(t: Seq<DomNode>, l: Vec<SimpleSelector>, r: Vec<SimpleSelector>, n: int)
    requires
        well_linked(t),
        0 <= n < t.len() <= usize::MAX,
        forall|j: int| 0 <= j < l@.len() ==> supported(#[trigger] l@[j]),
        forall|j: int| 0 <= j < r@.len() ==> supported(#[trigger] r@[j]),
    ensures
        select(t, Selector::Complex(Box::new(Selector::Simple(l)), Combinator::Plus, Box::new(Selector::Simple(r))), n) is Some,
        select(t, Selector::Complex(Box::new(Selector::Simple(l)), Combinator::Plus, Box::new(Selector::Simple(r))), n)
            != Some(None::<usize>) <==> all_match(r@, t[n].node_type, 0) == Some(true) && exists|b: int|
            t[n].prev_sibling matches Some(q) && nearest_element(t, b, q as int) && #[trigger] all_match(
                l@,
                t[b].node_type,
                0,
            ) == Some(true),
{
    lemma_all_match_supported(r@, t[n].node_type, 0);
    assert(node_linked(t, n));
    let sel = Selector::Complex(Box::new(Selector::Simple(l)), Combinator::Plus, Box::new(Selector::Simple(r)));
    let right = Selector::Simple(r);
    assert(select(t, right, n) == match all_match(r@, t[n].node_type, 0) {
        None => None,
        Some(b) => Some(if b { Some(n as usize) } else { None }),
    });
    if all_match(r@, t[n].node_type, 0) == Some(true) {
        assert(select(t, right, n) == Some(Some(n as usize)));
        assert(select(t, sel, n) == combine(t, l@, Combinator::Plus, n));
        if let Some(q) = t[n].prev_sibling {
            lemma_adjacent_walk(t, l@, q as int);
        }
    }
}

/// The child combinator: `l > r` matches node `n` exactly when `r` matches `n` and `l`
/// matches the parent of `n`.
pub proof fn lemma_child(t: Seq<DomNode>, l: Vec<SimpleSelector>, r: Vec<SimpleSelector>, n: int)
    requires
        well_linked(t),
        0 <= n < t.len() <= usize::MAX,
        forall|j: int| 0 <= j < l@.len() ==> supported(#[trigger] l@[j]),
        forall|j: int| 0 <= j < r@.len() ==> supported(#[trigger] r@[j]),
    ensures
        select(t, Selector::Complex(Box::new(Selector::Simple(l)), Combinator::GreaterThan, Box::new(Selector::Simple(r))), n) is Some,
        select(t, Selector::Complex(Box::new(Selector::Simple(l)), Combinator::GreaterThan, Box::new(Selector::Simple(r))), n)
            != Some(None::<usize>) <==> all_match(r@, t[n].node_type, 0) == Some(true) && (t[n].parent matches Some(p)
            && all_match(l@, t[p as int].node_type, 0) == Some(true)),
{
    lemma_all_match_supported(r@, t[n].node_type, 0);
    assert(node_linked(t, n));
    let sel = Selector::Complex(Box::new(Selector::Simple(l)), Combinator::GreaterThan, Box::new(Selector::Simple(r)));
    let right = Selector::Simple(r);
    assert(select(t, right, n) == match all_match(r@, t[n].node_type, 0) {
        None => None,
        Some(b) => Some(if b { Some(n as usize) } else { None }),
    });
    if all_match(r@, t[n].node_type, 0) == Some(true) {
        assert(select(t, right, n) == Some(Some(n as usize)));
        assert(select(t, sel, n) == combine(t, l@, Combinator::GreaterThan, n));
        if let Some(p) = t[n].parent {
            lemma_all_match_supported(l@, t[p as int].node_type, 0);
        }
    }
}

/// Class names are the pieces of the attribute's value split at spaces: a name without
/// spaces is found when it is the whole value, or stands between spaces or the ends.
pub proof fn lemma_has_word(a: Seq<char>, w: Seq<char>, b: Seq<char>)
    requires
        !w.contains(' '),
    ensures
        has_word(w, w),
        has_word(a + seq![' '] + w, w),
        has_word(w + seq![' '] + b, w),
        has_word(a + seq![' '] + w + seq![' '] + b, w),
{
    let z: int = 0;
    assert(w.subrange(z, z + w.len()) =~= w);
    let v1 = a + seq![' '] + w;
    assert(v1.subrange((a.len() + 1) as int, (a.len() + 1 + w.len()) as int) =~= w);
    let v2 = w + seq![' '] + b;
    assert(v2.subrange(z, z + w.len()) =~= w);
    assert(v2[z + w.len()] == ' ');
    let v3 = a + seq![' '] + w + seq![' '] + b;
    assert(v3.subrange((a.len() + 1) as int, (a.len() + 1 + w.len()) as int) =~= w);
}

/// What one simple selector counts towards specificity: an ID selector counts in `a`,
/// a class, attribute or pseudo-class selector in `b`, a type selector in `c`, and the
/// universal selector nowhere.
pub proof fn lemma_simple_counts(s: SimpleSelector)
    ensures
        s is Id ==> count_simple(seq![s], 0) == (1int, 0int, 0int),
        (s is Class || s is Attribute || s is PseudoClass) ==> count_simple(seq![s], 0) == (0int, 1int, 0int),
        s is Type ==> count_simple(seq![s], 0) == (0int, 0int, 1int),
        s is Universal ==> count_simple(seq![s], 0) == (0int, 0int, 0int),
{
    assert(count_simple(seq![s], 1) == (0int, 0int, 0int));
}

/// The counts of a sequence of simple selectors are the sums over its selectors: one
/// more selector adds its own counts.
pub proof fn lemma_counts_push(l: Seq<SimpleSelector>, s: SimpleSelector)
    ensures
        count_simple(l.push(s), 0) == ({
            let a = count_simple(l, 0);
            let b = count_simple(seq![s], 0);
            (a.0 + b.0, a.1 + b.1, a.2 + b.2)
        }),
    decreases l.len(),
{
    lemma_count_shift(l.push(s), 0);
    if l.len() > 0 {
        lemma_counts_push(l.drop_first(), s);
        assert(l.push(s).drop_first() =~= l.drop_first().push(s));
        lemma_count_shift(l, 0);
    } else {
        assert(l.push(s) =~= seq![s]);
    }
}

/// Counting from the `k + 1`-th selector is counting the sequence without its first.
proof fn lemma_count_shift(l: Seq<SimpleSelector>, k: int)
    requires
        0 <= k,
    ensures
        l.len() > 0 ==> count_simple(l, k + 1) == count_simple(l.drop_first(), k),
    decreases l.len() - k,
{
    if l.len() > 0 && k + 1 < l.len() {
        lemma_count_shift(l, k + 1);
        assert(l[k + 1] == l.drop_first()[k]);
    }
}

/// A type selector without a namespace prefix matches exactly the elements of its tag
/// name; a class selector the elements one of whose `class` attributes lists it among
/// its space-separated names; an ID selector the elements with an `id` attribute of
/// that value; the pseudo-class `:link` the elements with an `href` attribute, and no
/// other pseudo-class anything.
pub proof fn lemma_simple_matches(s: SimpleSelector, n: NodeType)
    ensures
        s matches SimpleSelector::PseudoClass(c) ==> simple_match(s, n) == Some(n matches NodeType::Element(e) && c@
            == "link"@ && exists|k: int| 0 <= k < e.attributes@.len() && (#[trigger] e.attributes@[k]).0@ == "href"@),
        s matches SimpleSelector::Type { namespace_prefix: None, name } ==> simple_match(s, n) == Some(
            n matches NodeType::Element(e) && e.tag_name@ == name@,
        ),
        s matches SimpleSelector::Class(c) ==> simple_match(s, n) == Some(n matches NodeType::Element(e) && exists|k: int|
            0 <= k < e.attributes@.len() && (#[trigger] e.attributes@[k]).0@ == "class"@ && has_word(e.attributes@[k].1@, c@)),
        s matches SimpleSelector::Id(i) ==> simple_match(s, n) == Some(n matches NodeType::Element(e) && exists|k: int|
            0 <= k < e.attributes@.len() && (#[trigger] e.attributes@[k]).0@ == "id"@ && e.attributes@[k].1@ == i@),
{
}

/// The numbers of ID selectors, of class, attribute and pseudo-class selectors, and of
/// type selectors in the selectors of `l` from the `k`-th on.
pub open spec fn count_simple(l: Seq<SimpleSelector>, k: int) -> (int, int, int)
    decreases l.len() - k,
{
    if k < 0 || k >= l.len() {
        (0, 0, 0)
    } else {
        let rest = count_simple(l, k + 1);
        match l[k] {
            SimpleSelector::Type { .. } => (rest.0, rest.1, rest.2 + 1),
            SimpleSelector::Universal(_) => rest,
            SimpleSelector::Attribute { .. } => (rest.0, rest.1 + 1, rest.2),
            SimpleSelector::Class(_) => (rest.0, rest.1 + 1, rest.2),
            SimpleSelector::Id(_) => (rest.0 + 1, rest.1, rest.2),
            SimpleSelector::PseudoClass(_) => (rest.0, rest.1 + 1, rest.2),
        }
    }
}

/// The triple `(a, b, c)` of https://www.w3.org/TR/selectors-3/#specificity summed over
/// all the simple selectors of `sel`.
pub open spec fn counts(sel: Selector) -> (int, int, int)
    decreases sel,
{
    match sel {
        Selector::Simple(l) => count_simple(l@, 0),
        Selector::Complex(left, _, right) => {
            let a = counts(*left);
            let b = counts(*right);
            (a.0 + b.0, a.1 + b.1, a.2 + b.2)
        },
    }
}

/// The counts of `sel` as three decimal digits: the greatest `(a, b, c)` with digits
/// from 0 to 9 that is not lexicographically greater than the counts (so `(0, 12, 3)`
/// gives `(0, 9, 9)`).
pub open spec fn digits(sel: Selector) -> (int, int, int) {
    let w = counts(sel);
    if w.0 > 9 {
        (9, 9, 9)
    } else if w.1 > 9 {
        (w.0, 9, 9)
    } else if w.2 > 9 {
        (w.0, w.1, 9)
    } else {
        w
    }
}

/// The specificity of `sel` written as a three-digit decimal number `abc`, as
/// selectors-3 writes its examples, the counts taken as `digits` gives them.
/// A greater number is a lexicographically greater `(a, b, c)`, and a greater
/// `(a, b, c)` never gives a smaller number (`lemma_specificity_order`); where every
/// count is below 10 the numbers order exactly as specificity does. The cascade
/// orders by `specificity_rank`, which tells all counts apart.
pub open spec fn specificity(sel: Selector) -> int {
    let w = digits(sel);
    w.0 * 100 + w.1 * 10 + w.2
}

/// `(a, b, c)` comes after `(a2, b2, c2)` in lexicographic order: the order of
/// specificities, https://www.w3.org/TR/selectors-3/#specificity
pub open spec fn lex_greater(x: (int, int, int), y: (int, int, int)) -> bool {
    x.0 > y.0 || (x.0 == y.0 && (x.1 > y.1 || (x.1 == y.1 && x.2 > y.2)))
}

/// The base in which `specificity_rank` packs the counts.
pub open spec fn rank_base() -> int {
    0x1_0000_0000
}

/// Each count of `sel` is below `base`.
pub open spec fn counts_below(sel: Selector, base: int) -> bool {
    counts(sel).0 < base && counts(sel).1 < base && counts(sel).2 < base
}

/// The counts of `sel` packed in base `rank_base()`: `(a * B + b) * B + c`.
pub open spec fn specificity_rank(sel: Selector) -> int {
    let w = counts(sel);
    (w.0 * rank_base() + w.1) * rank_base() + w.2
}

/// Two digits `hi`, `lo` in base `base` compare as the pairs `(hi, lo)` compare.
proof fn lemma_pack_order(hi: int, lo: int, hi2: int, lo2: int, base: int)
    requires
        0 <= lo < base,
        0 <= lo2 < base,
    ensures
        hi * base + lo > hi2 * base + lo2 <==> (hi > hi2 || (hi == hi2 && lo > lo2)),
        hi * base + lo == hi2 * base + lo2 <==> (hi == hi2 && lo == lo2),
{
    if hi > hi2 {
        assert(hi * base >= hi2 * base + base) by (nonlinear_arith)
            requires
                hi > hi2,
                base > 0,
        ;
    } else if hi < hi2 {
        assert(hi2 * base >= hi * base + base) by (nonlinear_arith)
            requires
                hi < hi2,
                base > 0,
        ;
    }
}

/// Where each count is below `base`, packing `(a, b, c)` in base `base` keeps the
/// lexicographic order of the triples, and tells triples apart.
proof fn lemma_pack3_order(x: (int, int, int), y: (int, int, int), base: int)
    requires
        0 <= x.0 && 0 <= x.1 < base && 0 <= x.2 < base,
        0 <= y.0 && 0 <= y.1 < base && 0 <= y.2 < base,
    ensures
        (x.0 * base + x.1) * base + x.2 > (y.0 * base + y.1) * base + y.2 <==> lex_greater(x, y),
        (x.0 * base + x.1) * base + x.2 == (y.0 * base + y.1) * base + y.2 <==> x == y,
{
    lemma_pack_order(x.0 * base + x.1, x.2, y.0 * base + y.1, y.2, base);
    lemma_pack_order(x.0, x.1, y.0, y.1, base);
}

/// Where each count is below `rank_base()`, ranks compare as specificities do: a
/// higher rank is a lexicographically greater `(a, b, c)`, and equal ranks are equal
/// triples.
pub proof fn lemma_rank_lexicographic(x: Selector, y: Selector)
    requires
        counts_below(x, rank_base()),
        counts_below(y, rank_base()),
    ensures
        specificity_rank(x) > specificity_rank(y) <==> lex_greater(counts(x), counts(y)),
        specificity_rank(x) == specificity_rank(y) <==> counts(x) == counts(y),
{
    lemma_counts_nonneg(x);
    lemma_counts_nonneg(y);
    lemma_pack3_order(counts(x), counts(y), rank_base());
}

/// The specificity number follows the order of specificities: a greater number is a
/// lexicographically greater `(a, b, c)`; a lexicographically greater `(a, b, c)`
/// never gives a smaller number; and where every count is below 10, a greater
/// `(a, b, c)` gives a greater number and equal numbers are equal counts.
pub proof fn lemma_specificity_order(x: Selector, y: Selector)
    ensures
        specificity(x) > specificity(y) ==> lex_greater(counts(x), counts(y)),
        lex_greater(counts(x), counts(y)) ==> specificity(x) >= specificity(y),
        counts_below(x, 10) && counts_below(y, 10) ==> (specificity(x) > specificity(y) <==> lex_greater(
            counts(x),
            counts(y),
        )),
        counts_below(x, 10) && counts_below(y, 10) ==> (specificity(x) == specificity(y) <==> counts(x) == counts(y)),
{
    lemma_counts_nonneg(x);
    lemma_counts_nonneg(y);
    lemma_pack3_order(digits(x), digits(y), 10);
    assert((digits(x).0 * 10 + digits(x).1) * 10 + digits(x).2 == specificity(x));
    assert((digits(y).0 * 10 + digits(y).1) * 10 + digits(y).2 == specificity(y));
}

/// The counts of a complex selector are the sums of the counts of its two sides.
pub proof fn lemma_counts_add(left: Selector, c: Combinator, right: Selector)
    ensures
        counts(Selector::Complex(Box::new(left), c, Box::new(right))) == (
            counts(left).0 + counts(right).0,
            counts(left).1 + counts(right).1,
            counts(left).2 + counts(right).2,
        ),
{
}

/// A sequence of simple selectors matches a node exactly when each of them matches it,
/// where each of them can be matched.
pub proof fn lemma_all_match_each(l: Seq<SimpleSelector>, n: NodeType, k: int)
    requires
        0 <= k <= l.len(),
        forall|j: int| k <= j < l.len() ==> (#[trigger] simple_match(l[j], n)) is Some,
    ensures
        all_match(l, n, k) == Some(forall|j: int| k <= j < l.len() ==> #[trigger] simple_match(l[j], n) == Some(true)),
    decreases l.len() - k,
{
    if k < l.len() {
        lemma_all_match_each(l, n, k + 1);
    }
}

proof fn lemma_count_simple_nonneg(l: Seq<SimpleSelector>, k: int)
    ensures
        count_simple(l, k).0 >= 0,
        count_simple(l, k).1 >= 0,
        count_simple(l, k).2 >= 0,
    decreases l.len() - k,
{
    if 0 <= k < l.len() {
        lemma_count_simple_nonneg(l, k + 1);
    }
}

proof fn lemma_counts_nonneg(sel: Selector)
    ensures
        counts(sel).0 >= 0,
        counts(sel).1 >= 0,
        counts(sel).2 >= 0,
    decreases sel,
{
    match sel {
        Selector::Simple(l) => lemma_count_simple_nonneg(l@, 0),
        Selector::Complex(left, _, right) => {
            lemma_counts_nonneg(*left);
            lemma_counts_nonneg(*right);
        },
    }
}

/// The characters of `v` from `start` up to `end` are those of `w`.
fn piece_eq(v: &Vec<char>, start: usize, end: usize, w: &Vec<char>) -> (r: bool)
    requires
        start <= end <= v@.len(),
    ensures
        r == (v@.subrange(start as int, end as int) == w@),
{
    if end - start != w.len() {
        return false;
    }
    let mut k: usize = 0;
    while k < w.len()
        invariant
            start <= end <= v@.len(),
            end - start == w@.len(),
            k <= w@.len(),
            forall|q: int| 0 <= q < k ==> v@[start + q] == w@[q],
        decreases w.len() - k,
    {
        if v[start + k] != w[k] {
            assert(v@.subrange(start as int, end as int)[k as int] != w@[k as int]);
            return false;
        }
        k = k + 1;
    }
    assert(v@.subrange(start as int, end as int) =~= w@);
    true
}

/// `w` occurs in `v` as one of the pieces between spaces.
fn contains_word(v: &str, w: &str) -> (r: bool)
    ensures
        r == has_word(v@, w@),
{
    let vs = chars_of(v);
    let ws = chars_of(w);
    let mut j: usize = 0;
    while j < ws.len()
        invariant
            ws@ == w@,
            j <= ws@.len(),
            forall|q: int| 0 <= q < j ==> ws@[q] != ' ',
        decreases ws.len() - j,
    {
        if ws[j] == ' ' {
            assert(ws@[j as int] == ' ');
            assert(w@.contains(' '));
            return false;
        }
        j = j + 1;
    }
    assert(!w@.contains(' '));
    let mut start: usize = 0;
    let mut i: usize = 0;
    while i < vs.len()
        invariant
            vs@ == v@,
            ws@ == w@,
            !w@.contains(' '),
            start <= i <= vs@.len(),
            start == 0 || vs@[start - 1] == ' ',
            forall|q: int| start <= q < i ==> vs@[q] != ' ',
            forall|p: int|
                #![trigger v@.subrange(p, p + w@.len())]
                0 <= p < start && p + w@.len() <= v@.len() && (p == 0 || v@[p - 1] == ' ') && (p
                    + w@.len() == v@.len() || v@[p + w@.len()] == ' ') ==> v@.subrange(p, p + w@.len())
                    != w@,
        decreases vs.len() - i,
    {
        if vs[i] == ' ' {
            if piece_eq(&vs, start, i, &ws) {
                assert(v@.subrange(start as int, start + w@.len()) == w@);
                return true;
            }
            proof {
                lemma_no_piece_here(v@, w@, start as int, i as int);
            }
            start = i + 1;
        }
        i = i + 1;
    }
    if piece_eq(&vs, start, i, &ws) {
        assert(v@.subrange(start as int, start + w@.len()) == w@);
        return true;
    }
    proof {
        lemma_no_piece_here(v@, w@, start as int, i as int);
    }
    false
}

/// A piece of `v` between spaces that runs from `start` to `end` and differs from `w`
/// is the only candidate position for `w` in that stretch.
proof fn lemma_no_piece_here(v: Seq<char>, w: Seq<char>, start: int, end: int)
    requires
        0 <= start <= end <= v.len(),
        !w.contains(' '),
        start == 0 || v[start - 1] == ' ',
        forall|q: int| start <= q < end ==> v[q] != ' ',
        end == v.len() || v[end] == ' ',
        v.subrange(start, end) != w,
        forall|p: int|
            #![trigger v.subrange(p, p + w.len())]
            0 <= p < start && p + w.len() <= v.len() && (p == 0 || v[p - 1] == ' ') && (p + w.len()
                == v.len() || v[p + w.len()] == ' ') ==> v.subrange(p, p + w.len()) != w,
    ensures
        forall|p: int|
            #![trigger v.subrange(p, p + w.len())]
            0 <= p < end + 1 && p + w.len() <= v.len() && (p == 0 || v[p - 1] == ' ') && (p + w.len()
                == v.len() || v[p + w.len()] == ' ') ==> v.subrange(p, p + w.len()) != w,
{
    assert forall|p: int|
        #![trigger v.subrange(p, p + w.len())]
        0 <= p < end + 1 && p + w.len() <= v.len() && (p == 0 || v[p - 1] == ' ') && (p + w.len()
            == v.len() || v[p + w.len()] == ' ') implies v.subrange(p, p + w.len()) != w by {
        if p >= start {
            if p > start {
                assert(v[p - 1] != ' ');
            } else if v.subrange(p, p + w.len()) == w {
                if p + w.len() < end {
                    assert(v[p + w.len()] != ' ');
                } else if p + w.len() > end {
                    assert(w[end - p] == v[end]);
                    assert(w.contains(' '));
                } else {
                    assert(v.subrange(start, end) == w);
                }
            }
        }
    }
}

impl SimpleSelector {
    /// Whether the selector matches `dom_node`; only type (without a namespace prefix),
    /// class, ID and pseudo-class selectors are supported.
    #[verifier::loop_isolation(false)]
    pub fn matches(&self, dom_node: &DomNode) -> (r: bool)
        requires
            simple_match(*self, dom_node.node_type) is Some,
        ensures
            simple_match(*self, dom_node.node_type) == Some(r),
    {
        match self {
            SimpleSelector::Type { namespace_prefix, name } => {
                if let NodeType::Element(elm) = &dom_node.node_type {
                    str_eq(elm.tag_name.as_str(), name.as_str())
                } else {
                    false
                }
            },
            SimpleSelector::Class(class_name) => {
                if let NodeType::Element(elm) = &dom_node.node_type {
                    let mut k: usize = 0;
                    while k < elm.attributes.len()
                        invariant
                            k <= elm.attributes@.len(),
                            forall|q: int|
                                0 <= q < k ==> !((#[trigger] elm.attributes@[q]).0@ == "class"@ && has_word(
                                    elm.attributes@[q].1@,
                                    class_name@,
                                )),
                        decreases elm.attributes.len() - k,
                    {
                        let (key, value) = &elm.attributes[k];
                        if str_eq(key.as_str(), "class") && contains_word(value.as_str(), class_name.as_str()) {
                            assert(elm.attributes@[k as int].0@ == "class"@);
                            return true;
                        }
                        k = k + 1;
                    }
                    false
                } else {
                    false
                }
            },
            SimpleSelector::Id(id) => {
                if let NodeType::Element(elm) = &dom_node.node_type {
                    let mut k: usize = 0;
                    while k < elm.attributes.len()
                        invariant
                            k <= elm.attributes@.len(),
                            forall|q: int|
                                0 <= q < k ==> !((#[trigger] elm.attributes@[q]).0@ == "id"@
                                    && elm.attributes@[q].1@ == id@),
                        decreases elm.attributes.len() - k,
                    {
                        let (key, value) = &elm.attributes[k];
                        if str_eq(key.as_str(), "id") && str_eq(value.as_str(), id.as_str()) {
                            assert(elm.attributes@[k as int].0@ == "id"@);
                            return true;
                        }
                        k = k + 1;
                    }
                    false
                } else {
                    false
                }
            },
            SimpleSelector::PseudoClass(class_name) => {
                if let NodeType::Element(elm) = &dom_node.node_type {
                    if str_eq(class_name.as_str(), "link") {
                        // https://developer.mozilla.org/en-US/docs/Web/CSS/:link
                        let mut k: usize = 0;
                        while k < elm.attributes.len()
                            invariant
                                k <= elm.attributes@.len(),
                                forall|q: int| 0 <= q < k ==> (#[trigger] elm.attributes@[q]).0@ != "href"@,
                            decreases elm.attributes.len() - k,
                        {
                            let (key, _) = &elm.attributes[k];
                            if str_eq(key.as_str(), "href") {
                                assert(elm.attributes@[k as int].0@ == "href"@);
                                return true;
                            }
                            k = k + 1;
                        }
                        false
                    } else {
                        false
                    }
                } else {
                    false
                }
            },
            _ => false,
        }
    }
}

/// Whether every selector of `l`, tried in order, matches `n`.
#[verifier::loop_isolation(false)]
fn all_simple_match(l: &Vec<SimpleSelector>, n: &DomNode) -> (r: bool)
    requires
        all_match(l@, n.node_type, 0) is Some,
    ensures
        all_match(l@, n.node_type, 0) == Some(r),
{
    let mut k: usize = 0;
    while k < l.len()
        invariant
            k <= l@.len(),
            all_match(l@, n.node_type, 0) == all_match(l@, n.node_type, k as int),
        decreases l.len() - k,
    {
        if !l[k].matches(n) {
            return false;
        }
        k = k + 1;
    }
    true
}

/// The node that `sel`, evaluated right to left from node `x`, picks out.
fn select_node(sel: &Selector, nodes: &Vec<DomNode>, x: usize) -> (r: Option<usize>)
    requires
        well_linked(nodes@),
        x < nodes@.len(),
        select(nodes@, *sel, x as int) is Some,
    ensures
        select(nodes@, *sel, x as int) == Some(r),
        r matches Some(y) ==> y < nodes@.len(),
    decreases sel,
{
    let ghost t = nodes@;
    match sel {
        Selector::Simple(selectors) => {
            if all_simple_match(selectors, &nodes[x]) {
                Some(x)
            } else {
                None
            }
        },
        Selector::Complex(left, combinator, right) => {
            let left = match &**left {
                Selector::Simple(l) => l,
                _ => {
                    return None;
                },
            };
            let right_node = match select_node(right, nodes, x) {
                Some(r) => r,
                None => {
                    return None;
                },
            };
            assert(node_linked(t, right_node as int));
            match combinator {
                // https://www.w3.org/TR/selectors-3/#descendant-combinators
                Combinator::Whitespace => {
                    let mut ancestor = match nodes[right_node].parent {
                        Some(p) => p,
                        None => {
                            return None;
                        },
                    };
                    loop
                        invariant
                            t == nodes@,
                            well_linked(t),
                            ancestor < t.len(),
                            select(t, *sel, x as int) == ancestor_walk(t, left@, ancestor as int),
                            ancestor_walk(t, left@, ancestor as int) is Some,
                        decreases ancestor,
                    {
                        assert(node_linked(t, ancestor as int));
                        if all_simple_match(left, &nodes[ancestor]) {
                            return Some(ancestor);
                        }
                        match nodes[ancestor].parent {
                            Some(p) => {
                                ancestor = p;
                            },
                            None => {
                                return None;
                            },
                        }
                    }
                },
                // https://www.w3.org/TR/selectors-3/#child-combinators
                Combinator::GreaterThan => {
                    let parent = match nodes[right_node].parent {
                        Some(p) => p,
                        None => {
                            return None;
                        },
                    };
                    if all_simple_match(left, &nodes[parent]) {
                        Some(parent)
                    } else {
                        None
                    }
                },
                // https://www.w3.org/TR/selectors-3/#adjacent-sibling-combinators
                Combinator::Plus => {
                    let mut sibling = match nodes[right_node].prev_sibling {
                        Some(s) => s,
                        None => {
                            return None;
                        },
                    };
                    loop
                        invariant
                            t == nodes@,
                            well_linked(t),
                            sibling < t.len(),
                            select(t, *sel, x as int) == adjacent_walk(t, left@, sibling as int),
                            adjacent_walk(t, left@, sibling as int) is Some,
                        decreases sibling,
                    {
                        assert(node_linked(t, sibling as int));
                        // Nodes other than elements, such as text between elements, are passed over.
                        if let NodeType::Element(_) = &nodes[sibling].node_type {
                            if all_simple_match(left, &nodes[sibling]) {
                                return Some(sibling);
                            }
                            return None;
                        }
                        match nodes[sibling].prev_sibling {
                            Some(s) => {
                                sibling = s;
                            },
                            None => {
                                return None;
                            },
                        }
                    }
                },
                // https://www.w3.org/TR/selectors-3/#general-sibling-combinators
                Combinator::Tilde => {
                    let mut sibling = match nodes[right_node].prev_sibling {
                        Some(s) => s,
                        None => {
                            return None;
                        },
                    };
                    loop
                        invariant
                            t == nodes@,
                            well_linked(t),
                            sibling < t.len(),
                            select(t, *sel, x as int) == sibling_walk(t, left@, sibling as int),
                            sibling_walk(t, left@, sibling as int) is Some,
                        decreases sibling,
                    {
                        assert(node_linked(t, sibling as int));
                        if let NodeType::Element(_) = &nodes[sibling].node_type {
                            if all_simple_match(left, &nodes[sibling]) {
                                return Some(sibling);
                            }
                        }
                        match nodes[sibling].prev_sibling {
                            Some(s) => {
                                sibling = s;
                            },
                            None => {
                                return None;
                            },
                        }
                    }
                },
            }
        },
    }
}

/// The counts of `counts` for the selectors of one sequence.
fn count_sequence(l: &Vec<SimpleSelector>, bound: Ghost<int>) -> (r: (u32, u32, u32))
    requires
        count_simple(l@, 0).0 + count_simple(l@, 0).1 + count_simple(l@, 0).2 <= bound@,
        bound@ <= u32::MAX,
    ensures
        r.0 == count_simple(l@, 0).0,
        r.1 == count_simple(l@, 0).1,
        r.2 == count_simple(l@, 0).2,
{
    let mut k: usize = l.len();
    let mut spec: (u32, u32, u32) = (0, 0, 0);
    proof {
        lemma_count_simple_nonneg(l@, 0);
    }
    while k > 0
        invariant
            k <= l@.len(),
            spec.0 == count_simple(l@, k as int).0,
            spec.1 == count_simple(l@, k as int).1,
            spec.2 == count_simple(l@, k as int).2,
            count_simple(l@, 0).0 + count_simple(l@, 0).1 + count_simple(l@, 0).2 <= bound@,
            bound@ <= u32::MAX,
        decreases k,
    {
        k = k - 1;
        proof {
            lemma_count_prefix(l@, k as int);
        }
        match &l[k] {
            SimpleSelector::Type { .. } => spec.2 = spec.2 + 1,
            SimpleSelector::Universal(_) => {},  // the universal selector is not counted
            SimpleSelector::Attribute { .. } => spec.1 = spec.1 + 1,
            SimpleSelector::Class(_) => spec.1 = spec.1 + 1,
            SimpleSelector::Id(_) => spec.0 = spec.0 + 1,
            SimpleSelector::PseudoClass(_) => spec.1 = spec.1 + 1,
        }
    }
    spec
}

/// The counts from the `k`-th selector on are no larger than those of the whole sequence.
proof fn lemma_count_prefix(l: Seq<SimpleSelector>, k: int)
    requires
        0 <= k <= l.len(),
    ensures
        count_simple(l, k).0 <= count_simple(l, 0).0,
        count_simple(l, k).1 <= count_simple(l, 0).1,
        count_simple(l, k).2 <= count_simple(l, 0).2,
        count_simple(l, k).0 + count_simple(l, k).1 + count_simple(l, k).2 <= count_simple(l, 0).0
            + count_simple(l, 0).1 + count_simple(l, 0).2,
    decreases k,
{
    if k > 0 {
        lemma_count_prefix(l, k - 1);
        lemma_count_simple_nonneg(l, k);
    }
}

/// The counts of `counts` for `sel`.
fn count_selector(sel: &Selector, bound: Ghost<int>) -> (r: (u32, u32, u32))
    requires
        counts(*sel).0 + counts(*sel).1 + counts(*sel).2 <= bound@,
        bound@ <= u32::MAX,
    ensures
        r.0 == counts(*sel).0,
        r.1 == counts(*sel).1,
        r.2 == counts(*sel).2,
    decreases sel,
{
    match sel {
        Selector::Simple(selectors) => count_sequence(selectors, bound),
        Selector::Complex(left, _, right) => {
            proof {
                lemma_counts_nonneg(**left);
                lemma_counts_nonneg(**right);
            }
            let right_spec = count_selector(right, bound);
            let left_spec = count_selector(left, bound);
            (left_spec.0 + right_spec.0, left_spec.1 + right_spec.1, left_spec.2 + right_spec.2)
        },
    }
}

/// A copy of the optional string `o`.
fn copy_opt(o: &Option<String>) -> (r: Option<String>)
    ensures
        opt_view(r) == opt_view(*o),
{
    match o {
        Some(x) => Some(string_of(x.as_str())),
        None => None,
    }
}

impl SimpleSelector {
    /// A copy of the simple selector.
    pub fn copy(&self) -> (r: SimpleSelector)
        ensures
            simple_view(r) == simple_view(*self),
    {
        match self {
            SimpleSelector::Type { namespace_prefix, name } => SimpleSelector::Type {
                namespace_prefix: copy_opt(namespace_prefix),
                name: string_of(name.as_str()),
            },
            SimpleSelector::Universal(p) => SimpleSelector::Universal(copy_opt(p)),
            SimpleSelector::Attribute { namespace_prefix, name, op, value } => SimpleSelector::Attribute {
                namespace_prefix: copy_opt(namespace_prefix),
                name: string_of(name.as_str()),
                op: copy_opt(op),
                value: copy_opt(value),
            },
            SimpleSelector::Class(c) => SimpleSelector::Class(string_of(c.as_str())),
            SimpleSelector::Id(i) => SimpleSelector::Id(string_of(i.as_str())),
            SimpleSelector::PseudoClass(c) => SimpleSelector::PseudoClass(string_of(c.as_str())),
        }
    }
}

impl Selector {
    /// A copy of the selector.
    pub fn copy(&self) -> (r: Selector)
        ensures
            selector_view(r) == selector_view(*self),
        decreases self,
    {
        match self {
            Selector::Simple(l) => {
                let mut out: Vec<SimpleSelector> = Vec::new();
                let mut k: usize = 0;
                while k < l.len()
                    invariant
                        k <= l@.len(),
                        simples_view(out@) == simples_view(l@.take(k as int)),
                    decreases l.len() - k,
                {
                    let c = l[k].copy();
                    let ghost before = out@;
                    out.push(c);
                    assert(l@.take(k + 1) =~= l@.take(k as int).push(l@[k as int]));
                    assert(simples_view(out@) =~= simples_view(before).push(simple_view(c)));
                    assert(simples_view(l@.take(k + 1)) =~= simples_view(l@.take(k as int)).push(
                        simple_view(l@[k as int]),
                    ));
                    k = k + 1;
                }
                assert(l@.take(l@.len() as int) =~= l@);
                Selector::Simple(out)
            },
            Selector::Complex(left, c, right) => {
                let a = (**left).copy();
                let b = (**right).copy();
                Selector::Complex(Box::new(a), *c, Box::new(b))
            },
        }
    }

    /// Whether the selector matches node `node` of the arena `nodes`.
    pub fn matches(&self, nodes: &Vec<DomNode>, node: usize) -> (r: bool)
        requires
            well_linked(nodes@),
            node < nodes@.len(),
            select(nodes@, *self, node as int) is Some,
        ensures
            r == (select(nodes@, *self, node as int) != Some(None::<usize>)),
    {
        select_node(self, nodes, node).is_some()
    }

    /// The specificity as a three-digit decimal number (see `specificity`): one ID
    /// selector gives 100, ten class selectors 99.
    /// - https://www.w3.org/TR/selectors-3/#specificity
    /// - https://developer.mozilla.org/en-US/docs/Web/CSS/Specificity
    pub fn calc_specificity(&self) -> (r: u32)
        requires
            counts(*self).0 + counts(*self).1 + counts(*self).2 <= u32::MAX,
        ensures
            r == specificity(*self),
    {
        proof {
            lemma_counts_nonneg(*self);
        }
        let w = count_selector(self, Ghost(u32::MAX as int));
        let (a, b, c) = if w.0 > 9 {
            (9, 9, 9)
        } else if w.1 > 9 {
            (w.0, 9, 9)
        } else if w.2 > 9 {
            (w.0, w.1, 9)
        } else {
            w
        };
        a * 100 + b * 10 + c
    }

    /// The rank by which the cascade orders selectors: the counts `(a, b, c)` packed in
    /// base `rank_base()`, which orders them lexicographically.
    pub(crate) fn rank(&self) -> (r: u128)
        requires
            counts(*self).0 + counts(*self).1 + counts(*self).2 <= u32::MAX,
        ensures
            r == specificity_rank(*self),
            counts_below(*self, rank_base()),
    {
        proof {
            lemma_counts_nonneg(*self);
        }
        let w = count_selector(self, Ghost(u32::MAX as int));
        let a = w.0 as u128;
        let b = w.1 as u128;
        let c = w.2 as u128;
        assert((a * 0x1_0000_0000 + b) * 0x1_0000_0000 + c < 0x1_0000_0000_0000_0000_0000_0000) by (nonlinear_arith)
            requires
                a < 0x1_0000_0000,
                b < 0x1_0000_0000,
                c < 0x1_0000_0000,
        ;
        (a * 0x1_0000_0000 + b) * 0x1_0000_0000 + c
    }
}


/// Parses a list of component values as a group of selectors.
#[derive(Debug)]
pub struct SelectorParser {
    input: Vec<ComponentValue>,
}

impl SelectorParser {
    /// The component values to be parsed.
    pub closed spec fn input(&self) -> Seq<ComponentValue> {
        self.input@
    }

    pub fn new(values: Vec<ComponentValue>) -> (p: Self)
        ensures
            p.input() == values@,
    {
        Self { input: values }
    }

    /// https://www.w3.org/TR/selectors-3/#w3cselgrammar
    pub fn parse(&mut self) -> (r: Result<Vec<Selector>, Error>)
        requires
            old(self).input().len() < usize::MAX - 4,
            blocks_fit(old(self).input()),
        ensures
            final(self).input() == old(self).input(),
            match selectors_group(cvs_view(old(self).input())) {
                Some(sels) => r is Ok && selectors_view(r->Ok_0@) == sels,
                None => r == Err::<Vec<Selector>, Error>(Error::InvalidSelector),
            },
    {
        parse_selectors_group(&self.input)
    }
}

/// The token at `p`, if the component value there is a preserved token.
fn tok_at(vs: &Vec<ComponentValue>, p: usize) -> (r: Option<&CssToken>)
    ensures
        match r {
            Some(t) => tok(cvs_view(vs@), p as int) == Some(t@),
            None => tok(cvs_view(vs@), p as int) is None,
        },
{
    if p < vs.len() {
        match &vs[p] {
            ComponentValue::PreservedToken(t) => Some(t),
            _ => None,
        }
    } else {
        None
    }
}

fn delim_at(vs: &Vec<ComponentValue>, p: usize, c: char) -> (r: bool)
    ensures
        r == is_delim(cvs_view(vs@), p as int, c),
{
    match tok_at(vs, p) {
        Some(CssToken::Delim(d)) => *d == c,
        _ => false,
    }
}

fn ident_at(vs: &Vec<ComponentValue>, p: usize) -> (r: Option<String>)
    ensures
        r is Some <==> is_ident(cvs_view(vs@), p as int),
        r matches Some(s) ==> s@ == ident_name(cvs_view(vs@), p as int),
{
    match tok_at(vs, p) {
        Some(CssToken::Ident(s)) => Some(s.clone()),
        _ => None,
    }
}

fn whitespace_at(vs: &Vec<ComponentValue>, p: usize) -> (r: bool)
    ensures
        r == (tok(cvs_view(vs@), p as int) == Some(CssTokenModel::Whitespace)),
{
    match tok_at(vs, p) {
        Some(CssToken::Whitespace) => true,
        _ => false,
    }
}

fn skip_whitespace(vs: &Vec<ComponentValue>, p: usize) -> (r: usize)
    requires
        p <= vs@.len(),
    ensures
        r == skip_ws(cvs_view(vs@), p as int),
        p <= r <= vs@.len(),
{
    let mut q = p;
    while q < vs.len() && whitespace_at(vs, q)
        invariant
            p <= q <= vs@.len(),
            skip_ws(cvs_view(vs@), p as int) == skip_ws(cvs_view(vs@), q as int),
        decreases vs.len() - q,
    {
        q = q + 1;
    }
    q
}

fn starts_prefix_at(vs: &Vec<ComponentValue>, p: usize) -> (r: bool)
    requires
        p < usize::MAX,
    ensures
        r == starts_prefix(cvs_view(vs@), p as int),
{
    delim_at(vs, p, '|') || ((ident_at(vs, p).is_some() || delim_at(vs, p, '*')) && delim_at(vs, p + 1, '|'))
}

/// namespace_prefix : [ IDENT | '*' ]? '|'
fn parse_namespace_prefix(vs: &Vec<ComponentValue>, p: usize) -> (r: Result<(String, usize), Error>)
    requires
        p < usize::MAX - 2,
    ensures
        match namespace_prefix(cvs_view(vs@), p as int) {
            Some((ns, q)) => r matches Ok((s, q2)) && s@ == ns && q2 == q,
            None => r is Err,
        },
{
    if delim_at(vs, p, '|') {
        return Ok((String::new(), p + 1));
    }
    let id = ident_at(vs, p);
    if id.is_some() && delim_at(vs, p + 1, '|') {
        return Ok((id.unwrap(), p + 2));
    }
    if delim_at(vs, p, '*') && delim_at(vs, p + 1, '|') {
        return Ok((string_of_char('*'), p + 2));
    }
    Err(Error::InvalidSelector)
}

/// element_name : IDENT
fn parse_element_name(vs: &Vec<ComponentValue>, p: usize) -> (r: Result<(String, usize), Error>)
    requires
        p < usize::MAX,
    ensures
        match element_name(cvs_view(vs@), p as int) {
            Some((n, q)) => r matches Ok((s, q2)) && s@ == n && q2 == q,
            None => r is Err,
        },
{
    match ident_at(vs, p) {
        Some(s) => Ok((s, p + 1)),
        None => Err(Error::InvalidSelector),
    }
}

/// type_selector : [ namespace_prefix ]? element_name
fn parse_type_selector(vs: &Vec<ComponentValue>, p: usize) -> (r: Result<(SimpleSelector, usize), Error>)
    requires
        p < usize::MAX - 4,
    ensures
        match type_selector(cvs_view(vs@), p as int) {
            Some((m, q)) => r matches Ok((s, q2)) && simple_view(s) == m && q2 == q,
            None => r is Err,
        },
{
    if starts_prefix_at(vs, p) {
        let (ns, q) = parse_namespace_prefix(vs, p)?;
        let (name, q2) = parse_element_name(vs, q)?;
        Ok((SimpleSelector::Type { namespace_prefix: Some(ns), name }, q2))
    } else {
        match ident_at(vs, p) {
            Some(name) => Ok((SimpleSelector::Type { namespace_prefix: None, name }, p + 1)),
            None => Err(Error::InvalidSelector),
        }
    }
}

/// universal : [ namespace_prefix ]? '*'
fn parse_universal(vs: &Vec<ComponentValue>, p: usize) -> (r: Result<(SimpleSelector, usize), Error>)
    requires
        p < usize::MAX - 4,
    ensures
        match universal(cvs_view(vs@), p as int) {
            Some((m, q)) => r matches Ok((s, q2)) && simple_view(s) == m && q2 == q,
            None => r is Err,
        },
{
    if starts_prefix_at(vs, p) {
        let (ns, q) = parse_namespace_prefix(vs, p)?;
        let q2 = if q < vs.len() { q + 1 } else { q };
        Ok((SimpleSelector::Universal(Some(ns)), q2))
    } else if delim_at(vs, p, '*') {
        Ok((SimpleSelector::Universal(None), p + 1))
    } else {
        Err(Error::InvalidSelector)
    }
}

/// class : '.' IDENT
fn parse_class(vs: &Vec<ComponentValue>, p: usize) -> (r: Result<(SimpleSelector, usize), Error>)
    requires
        p < usize::MAX - 4,
    ensures
        match class(cvs_view(vs@), p as int) {
            Some((m, q)) => r matches Ok((s, q2)) && simple_view(s) == m && q2 == q,
            None => r is Err,
        },
{
    if delim_at(vs, p, '.') {
        let (name, q) = parse_element_name(vs, p + 1)?;
        Ok((SimpleSelector::Class(name), q))
    } else {
        Err(Error::InvalidSelector)
    }
}

/// The attribute operator at `i`.
fn parse_attrib_op(vs: &Vec<ComponentValue>, i: usize) -> (r: Result<(String, usize), Error>)
    requires
        i < usize::MAX - 4,
    ensures
        match attrib_op(cvs_view(vs@), i as int) {
            Some((op, q)) => r matches Ok((s, q2)) && s@ == op && q2 == q,
            None => r is Err,
        },
{
    match tok_at(vs, i) {
        Some(CssToken::Delim(c)) => {
            let c = *c;
            if c == '=' {
                Ok((string_of_char('='), i + 1))
            } else if c == '^' || c == '$' || c == '*' || c == '~' || c == '|' {
                if delim_at(vs, i + 1, '=') {
                    let mut op = string_of_char(c);
                    string_push(&mut op, '=');
                    Ok((op, i + 2))
                } else {
                    Err(Error::InvalidSelector)
                }
            } else {
                Err(Error::InvalidSelector)
            }
        },
        _ => Err(Error::InvalidSelector),
    }
}

/// The contents of an attribute selector block.
fn parse_attrib_body(vs: &Vec<ComponentValue>) -> (r: Result<SimpleSelector, Error>)
    requires
        vs@.len() < usize::MAX - 4,
    ensures
        match attrib_body(cvs_view(vs@)) {
            Some(m) => r matches Ok(s) && simple_view(s) == m,
            None => r is Err,
        },
{
    let i = skip_whitespace(vs, 0);
    let namespace_prefix = if starts_prefix_at(vs, i) {
        let (ns, _) = parse_namespace_prefix(vs, i)?;
        Some(ns)
    } else if ident_at(vs, i).is_some() {
        None
    } else {
        return Err(Error::InvalidSelector);
    };
    let name = match ident_at(vs, i) {
        Some(name) => name,
        None => {
            return Err(Error::InvalidSelector);
        },
    };
    let j = skip_whitespace(vs, i + 1);
    if j >= vs.len() {
        return Ok(SimpleSelector::Attribute { namespace_prefix, name, op: None, value: None });
    }
    let (op, k) = parse_attrib_op(vs, j)?;
    let k2 = skip_whitespace(vs, k);
    let value = match tok_at(vs, k2) {
        Some(CssToken::Ident(v)) => v.clone(),
        Some(CssToken::String(v)) => v.clone(),
        _ => {
            return Err(Error::InvalidSelector);
        },
    };
    Ok(SimpleSelector::Attribute { namespace_prefix, name, op: Some(op), value: Some(value) })
}

/// attrib : '[' ... ']'
fn parse_attrib(vs: &Vec<ComponentValue>, p: usize) -> (r: Result<(SimpleSelector, usize), Error>)
    requires
        p < usize::MAX - 4,
        blocks_fit(vs@),
    ensures
        match attrib(cvs_view(vs@), p as int) {
            Some((m, q)) => r matches Ok((s, q2)) && simple_view(s) == m && q2 == q,
            None => r is Err,
        },
{
    if p >= vs.len() {
        return Err(Error::InvalidSelector);
    }
    assert(cvs_view(vs@)[p as int] == cv_view(vs@[p as int]));
    match &vs[p] {
        ComponentValue::SimpleBlock { associated_token, values } => {
            match associated_token {
                CssToken::OpenSquareBracket => {
                    let a = parse_attrib_body(values)?;
                    Ok((a, p + 1))
                },
                _ => Err(Error::InvalidSelector),
            }
        },
        _ => Err(Error::InvalidSelector),
    }
}

/// pseudo : ':' ':'? IDENT
fn parse_pseudo(vs: &Vec<ComponentValue>, p: usize) -> (r: Result<(SimpleSelector, usize), Error>)
    requires
        p < usize::MAX - 4,
    ensures
        match pseudo(cvs_view(vs@), p as int) {
            Some((m, q)) => r matches Ok((s, q2)) && simple_view(s) == m && q2 == q,
            None => r is Err,
        },
{
    let colon0 = match tok_at(vs, p) {
        Some(CssToken::Colon) => true,
        _ => false,
    };
    let colon1 = match tok_at(vs, p + 1) {
        Some(CssToken::Colon) => true,
        _ => false,
    };
    if !colon0 {
        return Err(Error::InvalidSelector);
    }
    let q = if colon1 { p + 2 } else { p + 1 };
    match ident_at(vs, q) {
        Some(name) => Ok((SimpleSelector::PseudoClass(name), q + 1)),
        None => Err(Error::InvalidSelector),
    }
}

/// Every block among the component values is short enough to be read with a cursor.
pub open spec fn blocks_fit(vs: Seq<ComponentValue>) -> bool {
    forall|k: int|
        0 <= k < vs.len() ==> (#[trigger] vs[k] matches ComponentValue::SimpleBlock { values, .. }
            ==> values@.len() < usize::MAX - 4)
}

/// The type or universal selector that may open a sequence at `p`.
fn parse_seq_head(vs: &Vec<ComponentValue>, p: usize) -> (r: Result<(Option<SimpleSelector>, usize), Error>)
    requires
        p < usize::MAX - 4,
    ensures
        match seq_head(cvs_view(vs@), p as int) {
            Some((m, q)) => r matches Ok((s, q2)) && q2 == q && match s {
                Some(x) => m == Some(simple_view(x)),
                None => m is None,
            },
            None => r is Err,
        },
{
    let ident_or_star = ident_at(vs, p).is_some() || delim_at(vs, p, '*');
    if (ident_or_star && delim_at(vs, p + 1, '|') && ident_at(vs, p + 2).is_some()) || (delim_at(vs, p, '|')
        && ident_at(vs, p + 1).is_some()) {
        let (s, q) = parse_type_selector(vs, p)?;
        Ok((Some(s), q))
    } else if (ident_or_star && delim_at(vs, p + 1, '|') && delim_at(vs, p + 2, '*')) || (delim_at(vs, p, '|')
        && delim_at(vs, p + 1, '*')) {
        let (s, q) = parse_universal(vs, p)?;
        Ok((Some(s), q))
    } else if ident_at(vs, p).is_some() {
        let (s, q) = parse_type_selector(vs, p)?;
        Ok((Some(s), q))
    } else if delim_at(vs, p, '*') {
        let (s, q) = parse_universal(vs, p)?;
        Ok((Some(s), q))
    } else {
        Ok((None, p))
    }
}

/// Appends to `out` the selectors of one kind that follow the head of a sequence.
#[verifier::loop_isolation(false)]
#[verifier::spinoff_prover]
#[verifier::rlimit(40)]
fn parse_seq_tail(vs: &Vec<ComponentValue>, p: usize, out: &mut Vec<SimpleSelector>) -> (r: Result<usize, Error>)
    requires
        p <= vs@.len(),
        vs@.len() < usize::MAX - 4,
        blocks_fit(vs@),
    ensures
        match seq_tail(cvs_view(vs@), p as int) {
            Some((l, q)) => r matches Ok(q2) && q2 == q && simples_view(final(out)@) == simples_view(old(out)@) + l,
            None => r is Err,
        },
{
    let ghost o = simples_view(out@);
    let is_hash = match tok_at(vs, p) {
        Some(CssToken::Hash(..)) => true,
        _ => false,
    };
    let is_block = p < vs.len() && match &vs[p] {
        ComponentValue::SimpleBlock { .. } => true,
        _ => false,
    };
    let is_colon = match tok_at(vs, p) {
        Some(CssToken::Colon) => true,
        _ => false,
    };
    let mut q = p;
    if is_hash {
        loop
            invariant
                p <= q <= vs@.len(),
                hashes(cvs_view(vs@), p as int) == ({
                    let (rest, e) = hashes(cvs_view(vs@), q as int);
                    (simples_view(out@).subrange(o.len() as int, simples_view(out@).len() as int) + rest, e)
                }),
                simples_view(out@).len() >= o.len(),
                simples_view(out@).subrange(0, o.len() as int) == o,
            decreases vs.len() - q,
        {
            let ghost before = out@;
            match tok_at(vs, q) {
                Some(CssToken::Hash(s, _)) => {
                    out.push(SimpleSelector::Id(s.clone()));
                    q = q + 1;
                    assert(simples_view(out@) =~= simples_view(before).push(simple_view(out@.last())));
                    assert(simples_view(out@).subrange(o.len() as int, simples_view(out@).len() as int) =~= simples_view(before).subrange(o.len() as int, simples_view(before).len() as int).push(simple_view(out@.last())));
                    assert(simples_view(out@).subrange(0, o.len() as int) =~= simples_view(before).subrange(0, o.len() as int));
                },
                _ => {
                    break;
                },
            }
        }
        assert(simples_view(out@) =~= o + simples_view(out@).subrange(o.len() as int, simples_view(out@).len() as int));
        return Ok(q);
    } else if delim_at(vs, p, '.') {
        loop
            invariant
                p <= q <= vs@.len(),
                classes(cvs_view(vs@), q as int) is Some ==> classes(cvs_view(vs@), p as int) == ({
                    let (rest, e) = classes(cvs_view(vs@), q as int).unwrap();
                    Some((simples_view(out@).subrange(o.len() as int, simples_view(out@).len() as int) + rest, e))
                }),
                classes(cvs_view(vs@), q as int) is None ==> classes(cvs_view(vs@), p as int) is None,
                simples_view(out@).len() >= o.len(),
                simples_view(out@).subrange(0, o.len() as int) == o,
            decreases vs.len() - q,
        {
            if !(q < vs.len() && delim_at(vs, q, '.')) {
                break;
            }
            let ghost before = out@;
            let (c, q2) = parse_class(vs, q)?;
            out.push(c);
            q = q2;
            assert(simples_view(out@) =~= simples_view(before).push(simple_view(c)));
            assert(simples_view(out@).subrange(o.len() as int, simples_view(out@).len() as int) =~= simples_view(before).subrange(o.len() as int, simples_view(before).len() as int).push(simple_view(c)));
            assert(simples_view(out@).subrange(0, o.len() as int) =~= simples_view(before).subrange(0, o.len() as int));
        }
        assert(simples_view(out@) =~= o + simples_view(out@).subrange(o.len() as int, simples_view(out@).len() as int));
        return Ok(q);
    } else if is_block {
        loop
            invariant
                p <= q <= vs@.len(),
                attribs(cvs_view(vs@), q as int) is Some ==> attribs(cvs_view(vs@), p as int) == ({
                    let (rest, e) = attribs(cvs_view(vs@), q as int).unwrap();
                    Some((simples_view(out@).subrange(o.len() as int, simples_view(out@).len() as int) + rest, e))
                }),
                attribs(cvs_view(vs@), q as int) is None ==> attribs(cvs_view(vs@), p as int) is None,
                simples_view(out@).len() >= o.len(),
                simples_view(out@).subrange(0, o.len() as int) == o,
            decreases vs.len() - q,
        {
            let block_here = q < vs.len() && match &vs[q] {
                ComponentValue::SimpleBlock { .. } => true,
                _ => false,
            };
            if !block_here {
                break;
            }
            let ghost before = out@;
            let (a, q2) = parse_attrib(vs, q)?;
            out.push(a);
            q = q2;
            assert(simples_view(out@) =~= simples_view(before).push(simple_view(a)));
            assert(simples_view(out@).subrange(o.len() as int, simples_view(out@).len() as int) =~= simples_view(before).subrange(o.len() as int, simples_view(before).len() as int).push(simple_view(a)));
            assert(simples_view(out@).subrange(0, o.len() as int) =~= simples_view(before).subrange(0, o.len() as int));
        }
        assert(simples_view(out@) =~= o + simples_view(out@).subrange(o.len() as int, simples_view(out@).len() as int));
        return Ok(q);
    } else if is_colon {
        loop
            invariant
                p <= q <= vs@.len(),
                pseudos(cvs_view(vs@), q as int) is Some ==> pseudos(cvs_view(vs@), p as int) == ({
                    let (rest, e) = pseudos(cvs_view(vs@), q as int).unwrap();
                    Some((simples_view(out@).subrange(o.len() as int, simples_view(out@).len() as int) + rest, e))
                }),
                pseudos(cvs_view(vs@), q as int) is None ==> pseudos(cvs_view(vs@), p as int) is None,
                simples_view(out@).len() >= o.len(),
                simples_view(out@).subrange(0, o.len() as int) == o,
            decreases vs.len() - q,
        {
            let colon_here = match tok_at(vs, q) {
                Some(CssToken::Colon) => true,
                _ => false,
            };
            if !(q < vs.len() && colon_here) {
                break;
            }
            let ghost before = out@;
            let (c, q2) = parse_pseudo(vs, q)?;
            out.push(c);
            q = q2;
            assert(simples_view(out@) =~= simples_view(before).push(simple_view(c)));
            assert(simples_view(out@).subrange(o.len() as int, simples_view(out@).len() as int) =~= simples_view(before).subrange(o.len() as int, simples_view(before).len() as int).push(simple_view(c)));
            assert(simples_view(out@).subrange(0, o.len() as int) =~= simples_view(before).subrange(0, o.len() as int));
        }
        assert(simples_view(out@) =~= o + simples_view(out@).subrange(o.len() as int, simples_view(out@).len() as int));
        return Ok(q);
    }
    assert(simples_view(out@) =~= o + Seq::<SimpleSelectorModel>::empty());
    Ok(p)
}

/// simple_selector_sequence, which must not be empty.
fn parse_simple_selector_seq(vs: &Vec<ComponentValue>, p: usize) -> (r: Result<(Vec<SimpleSelector>, usize), Error>)
    requires
        p <= vs@.len(),
        vs@.len() < usize::MAX - 4,
        blocks_fit(vs@),
    ensures
        match simple_selector_seq(cvs_view(vs@), p as int) {
            Some((l, q)) => r matches Ok((s, q2)) && simples_view(s@) == l && q2 == q,
            None => r is Err,
        },
{
    let mut selector_seq: Vec<SimpleSelector> = Vec::new();
    let (head, q) = parse_seq_head(vs, p)?;
    match head {
        Some(h) => selector_seq.push(h),
        None => {},
    }
    assert(simples_view(selector_seq@) =~= match seq_head(cvs_view(vs@), p as int) {
        Some((Some(h), _)) => seq![h],
        _ => Seq::<SimpleSelectorModel>::empty(),
    });
    proof {
        if let Some((_, q1)) = seq_head(cvs_view(vs@), p as int) {
            lemma_seq_head_bound(cvs_view(vs@), p as int);
        }
    }
    let q2 = parse_seq_tail(vs, q, &mut selector_seq)?;
    if selector_seq.len() == 0 {
        return Err(Error::InvalidSelector);
    }
    Ok((selector_seq, q2))
}

/// The head of a sequence ends within the component values.
proof fn lemma_seq_head_bound(vs: Seq<ComponentValueModel>, p: int)
    requires
        0 <= p <= vs.len(),
    ensures
        seq_head(vs, p) matches Some((_, q)) ==> p <= q <= vs.len(),
{
}

/// combinator : PLUS S* | GREATER S* | TILDE S* | S+
fn parse_combinator(vs: &Vec<ComponentValue>, p: usize) -> (r: Result<(Combinator, usize), Error>)
    requires
        p <= vs@.len(),
        vs@.len() < usize::MAX - 4,
    ensures
        match combinator(cvs_view(vs@), p as int) {
            Some((c, q)) => r matches Ok((c2, q2)) && c2 == c && q2 == q && p < q <= vs@.len(),
            None => r is Err,
        },
{
    let q = skip_whitespace(vs, p);
    if delim_at(vs, q, '+') || delim_at(vs, q, '>') || delim_at(vs, q, '~') {
        let c = if delim_at(vs, q, '+') {
            Combinator::Plus
        } else if delim_at(vs, q, '>') {
            Combinator::GreaterThan
        } else {
            Combinator::Tilde
        };
        let q2 = skip_whitespace(vs, q + 1);
        Ok((c, q2))
    } else if q > p {
        Ok((Combinator::Whitespace, q))
    } else {
        Err(Error::InvalidSelector)
    }
}

/// selector : simple_selector_sequence [ combinator simple_selector_sequence ]*
fn parse_selector(vs: &Vec<ComponentValue>, p: usize) -> (r: Result<(Selector, usize), Error>)
    requires
        p <= vs@.len(),
        vs@.len() < usize::MAX - 4,
        blocks_fit(vs@),
    ensures
        match selector(cvs_view(vs@), p as int) {
            Some((m, q)) => r matches Ok((s, q2)) && selector_view(s) == m && q2 == q && q <= vs@.len(),
            None => r is Err,
        },
    decreases vs@.len() - p,
{
    let (l, q) = parse_simple_selector_seq(vs, p)?;
    proof {
        lemma_simple_selector_seq_bound(cvs_view(vs@), p as int);
    }
    let simple = Selector::Simple(l);
    assert(selector_view(simple) == SelectorModel::Simple(simples_view(l@)));
    if delim_at(vs, q, '+') || delim_at(vs, q, '>') || delim_at(vs, q, '~') || whitespace_at(vs, q) {
        let (c, q2) = parse_combinator(vs, q)?;
        let (right, q3) = parse_selector(vs, q2)?;
        Ok((Selector::Complex(Box::new(simple), c, Box::new(right)), q3))
    } else {
        Ok((simple, q))
    }
}

/// A simple selector sequence ends within the component values.
proof fn lemma_simple_selector_seq_bound(vs: Seq<ComponentValueModel>, p: int)
    requires
        0 <= p <= vs.len(),
    ensures
        simple_selector_seq(vs, p) matches Some((_, q)) ==> p <= q <= vs.len(),
{
    lemma_seq_head_bound(vs, p);
    if let Some((_, q)) = seq_head(vs, p) {
        lemma_seq_tail_bound(vs, q);
    }
}

/// The run after the head of a sequence ends within the component values.
proof fn lemma_seq_tail_bound(vs: Seq<ComponentValueModel>, p: int)
    requires
        0 <= p <= vs.len(),
    ensures
        seq_tail(vs, p) matches Some((_, q)) ==> p <= q <= vs.len(),
{
    lemma_hashes_bound(vs, p);
    lemma_classes_bound(vs, p);
    lemma_attribs_bound(vs, p);
    lemma_pseudos_bound(vs, p);
}

proof fn lemma_hashes_bound(vs: Seq<ComponentValueModel>, p: int)
    requires
        0 <= p <= vs.len(),
    ensures
        p <= hashes(vs, p).1 <= vs.len(),
    decreases vs.len() - p,
{
    if 0 <= p < vs.len() {
        lemma_hashes_bound(vs, p + 1);
    }
}

proof fn lemma_classes_bound(vs: Seq<ComponentValueModel>, p: int)
    requires
        0 <= p <= vs.len(),
    ensures
        classes(vs, p) matches Some((_, q)) ==> p <= q <= vs.len(),
    decreases vs.len() - p,
{
    if 0 <= p < vs.len() && is_delim(vs, p, '.') {
        if let Some((_, q)) = class(vs, p) {
            if p < q {
                lemma_classes_bound(vs, q);
            }
        }
    }
}

proof fn lemma_attribs_bound(vs: Seq<ComponentValueModel>, p: int)
    requires
        0 <= p <= vs.len(),
    ensures
        attribs(vs, p) matches Some((_, q)) ==> p <= q <= vs.len(),
    decreases vs.len() - p,
{
    if 0 <= p < vs.len() && vs[p] is SimpleBlock {
        if let Some((_, q)) = attrib(vs, p) {
            lemma_attribs_bound(vs, q);
        }
    }
}

proof fn lemma_pseudos_bound(vs: Seq<ComponentValueModel>, p: int)
    requires
        0 <= p <= vs.len(),
    ensures
        pseudos(vs, p) matches Some((_, q)) ==> p <= q <= vs.len(),
    decreases vs.len() - p,
{
    if 0 <= p < vs.len() && tok(vs, p) == Some(CssTokenModel::Colon) {
        if let Some((_, q)) = pseudo(vs, p) {
            if p < q {
                lemma_pseudos_bound(vs, q);
            }
        }
    }
}

/// selectors_group : selector [ COMMA S* selector ]*
#[verifier::loop_isolation(false)]
fn parse_selectors_group(vs: &Vec<ComponentValue>) -> (r: Result<Vec<Selector>, Error>)
    requires
        vs@.len() < usize::MAX - 4,
        blocks_fit(vs@),
    ensures
        match selectors_group(cvs_view(vs@)) {
            Some(sels) => r is Ok && selectors_view(r->Ok_0@) == sels,
            None => r == Err::<Vec<Selector>, Error>(Error::InvalidSelector),
        },
{
    let mut selectors: Vec<Selector> = Vec::new();
    let (first, mut q) = match parse_selector(vs, 0) {
        Ok(r) => r,
        Err(_) => {
            return Err(Error::InvalidSelector);
        },
    };
    selectors.push(first);
    let ghost first_model = selector(cvs_view(vs@), 0).unwrap().0;
    assert(selectors_view(selectors@) =~= seq![first_model]);
    loop
        invariant
            q <= vs@.len(),
            selector(cvs_view(vs@), 0) is Some,
            more_selectors(cvs_view(vs@), q as int) is Some ==> selectors_group(cvs_view(vs@)) == Some(
                selectors_view(selectors@) + more_selectors(cvs_view(vs@), q as int).unwrap(),
            ),
            more_selectors(cvs_view(vs@), q as int) is None ==> selectors_group(cvs_view(vs@)) is None,
        decreases vs.len() - q,
    {
        if q >= vs.len() {
            assert(selectors_view(selectors@) + Seq::<SelectorModel>::empty() =~= selectors_view(selectors@));
            return Ok(selectors);
        }
        let is_comma = match tok_at(vs, q) {
            Some(CssToken::Comma) => true,
            _ => false,
        };
        if !is_comma {
            return Err(Error::InvalidSelector);
        }
        let start = skip_whitespace(vs, q + 1);
        let ghost before = selectors@;
        let (s, q2) = match parse_selector(vs, start) {
            Ok(r) => r,
            Err(_) => {
                return Err(Error::InvalidSelector);
            },
        };
        selectors.push(s);
        assert(selectors_view(selectors@) =~= selectors_view(before).push(selector_view(s)));
        proof {
            lemma_selector_progress(cvs_view(vs@), start as int);
        }
        assert(q < q2);
        q = q2;
        assert(selectors_view(before) + (seq![selector_view(s)] + more_selectors(cvs_view(vs@), q as int).unwrap_or(Seq::empty())) =~= selectors_view(selectors@) + more_selectors(cvs_view(vs@), q as int).unwrap_or(Seq::empty()));
    }
}

/// A selector does not end before it starts.
proof fn lemma_selector_progress(vs: Seq<ComponentValueModel>, p: int)
    requires
        0 <= p <= vs.len(),
    ensures
        selector(vs, p) matches Some((_, q)) ==> p <= q <= vs.len(),
    decreases vs.len() - p,
{
    lemma_simple_selector_seq_bound(vs, p);
    if let Some((l, q)) = simple_selector_seq(vs, p) {
        if is_combinator_delim(vs, q) || tok(vs, q) == Some(CssTokenModel::Whitespace) {
            if let Some((c, q2)) = combinator(vs, q) {
                if p < q2 <= vs.len() {
                    lemma_selector_progress(vs, q2);
                }
            }
        }
    }
}

/// The whitespace skipped from `p` ends within the component values, and something
/// was skipped only where a whitespace token stands at `p`.
proof fn lemma_skip_ws_bound(vs: Seq<ComponentValueModel>, p: int)
    requires
        0 <= p <= vs.len(),
    ensures
        p <= skip_ws(vs, p) <= vs.len(),
        skip_ws(vs, p) > p ==> tok(vs, p) == Some(CssTokenModel::Whitespace),
        tok(vs, p) == Some(CssTokenModel::Whitespace) ==> skip_ws(vs, p) > p,
    decreases vs.len() - p,
{
    if 0 <= p < vs.len() && tok(vs, p) == Some(CssTokenModel::Whitespace) {
        lemma_skip_ws_bound(vs, p + 1);
    }
}

/// The combinators: after any whitespace, `>` is the child combinator, `+` the adjacent
/// sibling combinator and `~` the general sibling combinator, each taking the
/// whitespace after it too; whitespace followed by none of them is the descendant
/// combinator.
pub proof fn lemma_combinator_kinds(vs: Seq<ComponentValueModel>, p: int)
    requires
        0 <= p <= vs.len(),
    ensures
        is_delim(vs, skip_ws(vs, p), '>') ==> combinator(vs, p) == Some(
            (Combinator::GreaterThan, skip_ws(vs, skip_ws(vs, p) + 1)),
        ),
        is_delim(vs, skip_ws(vs, p), '+') ==> combinator(vs, p) == Some(
            (Combinator::Plus, skip_ws(vs, skip_ws(vs, p) + 1)),
        ),
        is_delim(vs, skip_ws(vs, p), '~') ==> combinator(vs, p) == Some(
            (Combinator::Tilde, skip_ws(vs, skip_ws(vs, p) + 1)),
        ),
        (tok(vs, p) == Some(CssTokenModel::Whitespace) && !is_combinator_delim(vs, skip_ws(vs, p)))
            ==> combinator(vs, p) == Some((Combinator::Whitespace, skip_ws(vs, p))),
        (tok(vs, p) != Some(CssTokenModel::Whitespace) && !is_combinator_delim(vs, p)) ==> combinator(vs, p)
            is None,
{
    lemma_skip_ws_bound(vs, p);
}

/// A selector is read as its first simple selector sequence `l`, then, where a
/// combinator `c` and a selector `r` follow, as `l c r`: the sequence on the left,
/// joined by `c` to the rest on the right.
pub proof fn lemma_selector_joins(
    vs: Seq<ComponentValueModel>,
    p: int,
    l: Seq<SimpleSelectorModel>,
    q: int,
    c: Combinator,
    q2: int,
    r: SelectorModel,
    q3: int,
)
    requires
        0 <= p <= vs.len(),
        simple_selector_seq(vs, p) == Some((l, q)),
        combinator(vs, q) == Some((c, q2)),
        selector(vs, q2) == Some((r, q3)),
    ensures
        selector(vs, p) == Some(
            (SelectorModel::Complex(Box::new(SelectorModel::Simple(l)), c, Box::new(r)), q3),
        ),
{
    lemma_simple_selector_seq_bound(vs, p);
    lemma_skip_ws_bound(vs, q);
    let q1 = skip_ws(vs, q);
    if is_combinator_delim(vs, q1) {
        lemma_skip_ws_bound(vs, q1 + 1);
    }
}

/// A simple selector sequence that reaches the end of the values is the whole selector.
pub proof fn lemma_selector_alone(vs: Seq<ComponentValueModel>, p: int, l: Seq<SimpleSelectorModel>)
    requires
        simple_selector_seq(vs, p) == Some((l, vs.len() as int)),
    ensures
        selector(vs, p) == Some((SelectorModel::Simple(l), vs.len() as int)),
{
}

/// The simple selectors: an ident is a type selector and `*` the universal selector
/// (where no `|` follows either), `.` and an ident a class selector, a hash token an ID
/// selector, and `:` and an ident a pseudo-class selector.
pub proof fn lemma_simple_kinds(vs: Seq<ComponentValueModel>, p: int)
    requires
        0 <= p,
    ensures
        (is_ident(vs, p) && !is_delim(vs, p + 1, '|')) ==> (seq_head(vs, p) == Some(
            (Some(SimpleSelectorModel::Type { namespace_prefix: None, name: ident_name(vs, p) }), p + 1),
        )),
        (is_delim(vs, p, '*') && !is_delim(vs, p + 1, '|')) ==> seq_head(vs, p) == Some(
            (Some(SimpleSelectorModel::Universal(None)), p + 1),
        ),
        (is_delim(vs, p, '.') && is_ident(vs, p + 1)) ==> class(vs, p) == Some(
            (SimpleSelectorModel::Class(ident_name(vs, p + 1)), p + 2),
        ),
        tok(vs, p) matches Some(CssTokenModel::Hash(h, _)) ==> hashes(vs, p).0.len() > 0 && hashes(vs, p).0[0]
            == SimpleSelectorModel::Id(h),
        (tok(vs, p) == Some(CssTokenModel::Colon) && is_ident(vs, p + 1)) ==> pseudo(vs, p) == Some(
            (SimpleSelectorModel::PseudoClass(ident_name(vs, p + 1)), p + 2),
        ),
{
}
} // verus!
