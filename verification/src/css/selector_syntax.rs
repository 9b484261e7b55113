//! The abstract model of selector parsing: https://www.w3.org/TR/selectors-3/#w3cselgrammar
//!
//! Each spec function reads a list of component values (as mathematical values) from
//! a cursor `p` and gives what it parses there and the cursor after it, or `None`
//! where the grammar is not met.
use vstd::prelude::*;

use crate::css::cssom::ComponentValueModel;
use crate::css::selector::{Combinator, Selector, SimpleSelector};
use crate::css::tokenization::CssTokenModel;

verus! {

/// A simple selector as a mathematical value.
pub enum SimpleSelectorModel {
    Type { namespace_prefix: Option<Seq<char>>, name: Seq<char> },
    Universal(Option<Seq<char>>),
    Attribute {
        namespace_prefix: Option<Seq<char>>,
        name: Seq<char>,
        op: Option<Seq<char>>,
        value: Option<Seq<char>>,
    },
    Class(Seq<char>),
    Id(Seq<char>),
    PseudoClass(Seq<char>),
}

/// A selector as a mathematical value.
pub enum SelectorModel {
    Simple(Seq<SimpleSelectorModel>),
    Complex(Box<SelectorModel>, Combinator, Box<SelectorModel>),
}

pub open spec fn opt_view(o: Option<String>) -> Option<Seq<char>> {
    match o {
        Some(s) => Some(s@),
        None => None,
    }
}

/// The mathematical value of a simple selector.
pub open spec fn simple_view(s: SimpleSelector) -> SimpleSelectorModel {
    match s {
        SimpleSelector::Type { namespace_prefix, name } => SimpleSelectorModel::Type {
            namespace_prefix: opt_view(namespace_prefix),
            name: name@,
        },
        SimpleSelector::Universal(p) => SimpleSelectorModel::Universal(opt_view(p)),
        SimpleSelector::Attribute { namespace_prefix, name, op, value } => SimpleSelectorModel::Attribute {
            namespace_prefix: opt_view(namespace_prefix),
            name: name@,
            op: opt_view(op),
            value: opt_view(value),
        },
        SimpleSelector::Class(c) => SimpleSelectorModel::Class(c@),
        SimpleSelector::Id(i) => SimpleSelectorModel::Id(i@),
        SimpleSelector::PseudoClass(c) => SimpleSelectorModel::PseudoClass(c@),
    }
}

/// The mathematical values of a list of simple selectors.
pub open spec fn simples_view(l: Seq<SimpleSelector>) -> Seq<SimpleSelectorModel> {
    l.map_values(|s: SimpleSelector| simple_view(s))
}

/// The mathematical value of a selector.
pub open spec fn selector_view(s: Selector) -> SelectorModel
    decreases s,
{
    match s {
        Selector::Simple(l) => SelectorModel::Simple(simples_view(l@)),
        Selector::Complex(left, c, right) => SelectorModel::Complex(
            Box::new(selector_view(*left)),
            c,
            Box::new(selector_view(*right)),
        ),
    }
}

/// The mathematical values of a list of selectors.
pub open spec fn selectors_view(l: Seq<Selector>) -> Seq<SelectorModel> {
    l.map_values(|s: Selector| selector_view(s))
}

/// The token at `p`, if the component value there is a preserved token.
pub open spec fn tok(vs: Seq<ComponentValueModel>, p: int) -> Option<CssTokenModel> {
    if 0 <= p < vs.len() {
        match vs[p] {
            ComponentValueModel::PreservedToken(t) => Some(t),
            _ => None,
        }
    } else {
        None
    }
}

/// The component value at `p` is the delimiter `c`.
pub open spec fn is_delim(vs: Seq<ComponentValueModel>, p: int, c: char) -> bool {
    tok(vs, p) == Some(CssTokenModel::Delim(c))
}

/// The component value at `p` is an ident token.
pub open spec fn is_ident(vs: Seq<ComponentValueModel>, p: int) -> bool {
    tok(vs, p) matches Some(CssTokenModel::Ident(_))
}

/// The name held by the ident token at `p`.
pub open spec fn ident_name(vs: Seq<ComponentValueModel>, p: int) -> Seq<char> {
    match tok(vs, p) {
        Some(CssTokenModel::Ident(s)) => s,
        _ => Seq::empty(),
    }
}

/// The cursor after reading one component value at `p` (it stays at the end).
pub open spec fn adv(vs: Seq<ComponentValueModel>, p: int) -> int {
    if p < vs.len() {
        p + 1
    } else {
        p
    }
}

/// The cursor after the whitespace tokens that start at `p`.
pub open spec fn skip_ws(vs: Seq<ComponentValueModel>, p: int) -> int
    decreases vs.len() - p,
{
    if 0 <= p < vs.len() && tok(vs, p) == Some(CssTokenModel::Whitespace) {
        skip_ws(vs, p + 1)
    } else {
        p
    }
}

/// A namespace prefix starts at `p`: `|`, or an ident or `*` followed by `|`.
pub open spec fn starts_prefix(vs: Seq<ComponentValueModel>, p: int) -> bool {
    is_delim(vs, p, '|') || ((is_ident(vs, p) || is_delim(vs, p, '*')) && is_delim(vs, p + 1, '|'))
}

/// namespace_prefix : [ IDENT | '*' ]? '|'
pub open spec fn namespace_prefix(vs: Seq<ComponentValueModel>, p: int) -> Option<(Seq<char>, int)> {
    if is_delim(vs, p, '|') {
        Some((Seq::empty(), p + 1))
    } else if is_ident(vs, p) && is_delim(vs, p + 1, '|') {
        Some((ident_name(vs, p), p + 2))
    } else if is_delim(vs, p, '*') && is_delim(vs, p + 1, '|') {
        Some((seq!['*'], p + 2))
    } else {
        None
    }
}

/// element_name : IDENT
pub open spec fn element_name(vs: Seq<ComponentValueModel>, p: int) -> Option<(Seq<char>, int)> {
    if is_ident(vs, p) {
        Some((ident_name(vs, p), p + 1))
    } else {
        None
    }
}

/// type_selector : [ namespace_prefix ]? element_name
pub open spec fn type_selector(vs: Seq<ComponentValueModel>, p: int) -> Option<(SimpleSelectorModel, int)> {
    if starts_prefix(vs, p) {
        match namespace_prefix(vs, p) {
            None => None,
            Some((ns, q)) => match element_name(vs, q) {
                None => None,
                Some((name, q2)) => Some((SimpleSelectorModel::Type { namespace_prefix: Some(ns), name }, q2)),
            },
        }
    } else if is_ident(vs, p) {
        Some((SimpleSelectorModel::Type { namespace_prefix: None, name: ident_name(vs, p) }, p + 1))
    } else {
        None
    }
}

/// universal : [ namespace_prefix ]? '*' (the value after the prefix is taken as the `*`)
pub open spec fn universal(vs: Seq<ComponentValueModel>, p: int) -> Option<(SimpleSelectorModel, int)> {
    if starts_prefix(vs, p) {
        match namespace_prefix(vs, p) {
            None => None,
            Some((ns, q)) => Some((SimpleSelectorModel::Universal(Some(ns)), adv(vs, q))),
        }
    } else if is_delim(vs, p, '*') {
        Some((SimpleSelectorModel::Universal(None), p + 1))
    } else {
        None
    }
}

/// class : '.' IDENT
pub open spec fn class(vs: Seq<ComponentValueModel>, p: int) -> Option<(SimpleSelectorModel, int)> {
    if is_delim(vs, p, '.') {
        match element_name(vs, p + 1) {
            None => None,
            Some((name, q)) => Some((SimpleSelectorModel::Class(name), q)),
        }
    } else {
        None
    }
}

/// The attribute operator at `i`, and the cursor after it.
pub open spec fn attrib_op(vs: Seq<ComponentValueModel>, i: int) -> Option<(Seq<char>, int)> {
    match tok(vs, i) {
        Some(CssTokenModel::Delim(c)) => if c == '=' {
            Some((seq!['='], i + 1))
        } else if c == '^' || c == '$' || c == '*' || c == '~' || c == '|' {
            if is_delim(vs, i + 1, '=') {
                Some((seq![c, '='], i + 2))
            } else {
                None
            }
        } else {
            None
        },
        _ => None,
    }
}

/// The contents of an attribute selector block:
/// `S* [ namespace_prefix ]? IDENT S* [ op S* [ IDENT | STRING ] S* ]?`.
/// The namespace prefix is read ahead and the name is then read from the start.
pub open spec fn attrib_body(vs: Seq<ComponentValueModel>) -> Option<SimpleSelectorModel> {
    let i = skip_ws(vs, 0);
    let prefix = if starts_prefix(vs, i) {
        match namespace_prefix(vs, i) {
            None => None,
            Some((ns, _)) => Some(Some(ns)),
        }
    } else if is_ident(vs, i) {
        Some(None)
    } else {
        None
    };
    match prefix {
        None => None,
        Some(ns) => if !is_ident(vs, i) {
            None
        } else {
            let name = ident_name(vs, i);
            let j = skip_ws(vs, i + 1);
            if j >= vs.len() {
                Some(SimpleSelectorModel::Attribute { namespace_prefix: ns, name, op: None, value: None })
            } else {
                match attrib_op(vs, j) {
                    None => None,
                    Some((op, k)) => {
                        let k2 = skip_ws(vs, k);
                        match tok(vs, k2) {
                            Some(CssTokenModel::Ident(v)) => Some(
                                SimpleSelectorModel::Attribute {
                                    namespace_prefix: ns,
                                    name,
                                    op: Some(op),
                                    value: Some(v),
                                },
                            ),
                            Some(CssTokenModel::QuotedString(v)) => Some(
                                SimpleSelectorModel::Attribute {
                                    namespace_prefix: ns,
                                    name,
                                    op: Some(op),
                                    value: Some(v),
                                },
                            ),
                            _ => None,
                        }
                    },
                }
            }
        },
    }
}

/// attrib : '[' ... ']', a `[` block.
pub open spec fn attrib(vs: Seq<ComponentValueModel>, p: int) -> Option<(SimpleSelectorModel, int)> {
    if 0 <= p < vs.len() {
        match vs[p] {
            ComponentValueModel::SimpleBlock { associated_token, values } => if associated_token
                == CssTokenModel::OpenSquareBracket {
                match attrib_body(values) {
                    None => None,
                    Some(a) => Some((a, p + 1)),
                }
            } else {
                None
            },
            _ => None,
        }
    } else {
        None
    }
}

/// pseudo : ':' ':'? IDENT
pub open spec fn pseudo(vs: Seq<ComponentValueModel>, p: int) -> Option<(SimpleSelectorModel, int)> {
    let q = if tok(vs, p) == Some(CssTokenModel::Colon) && tok(vs, p + 1) == Some(CssTokenModel::Colon) {
        p + 2
    } else {
        p + 1
    };
    if tok(vs, p) != Some(CssTokenModel::Colon) {
        None
    } else if is_ident(vs, q) {
        Some((SimpleSelectorModel::PseudoClass(ident_name(vs, q)), q + 1))
    } else {
        None
    }
}

/// The type or universal selector that may open a sequence at `p`: `Some(None)` where there is none.
pub open spec fn seq_head(vs: Seq<ComponentValueModel>, p: int) -> Option<(Option<SimpleSelectorModel>, int)> {
    let ident_or_star = is_ident(vs, p) || is_delim(vs, p, '*');
    let sel = if (ident_or_star && is_delim(vs, p + 1, '|') && is_ident(vs, p + 2)) || (is_delim(vs, p, '|')
        && is_ident(vs, p + 1)) {
        Some(type_selector(vs, p))
    } else if (ident_or_star && is_delim(vs, p + 1, '|') && is_delim(vs, p + 2, '*')) || (is_delim(
        vs,
        p,
        '|',
    ) && is_delim(vs, p + 1, '*')) {
        Some(universal(vs, p))
    } else if is_ident(vs, p) {
        Some(type_selector(vs, p))
    } else if is_delim(vs, p, '*') {
        Some(universal(vs, p))
    } else {
        None
    };
    match sel {
        None => Some((None, p)),
        Some(None) => None,
        Some(Some((s, q))) => Some((Some(s), q)),
    }
}

/// The ID selectors from `p` on, one per hash token.
pub open spec fn hashes(vs: Seq<ComponentValueModel>, p: int) -> (Seq<SimpleSelectorModel>, int)
    decreases vs.len() - p,
{
    if 0 <= p < vs.len() {
        match tok(vs, p) {
            Some(CssTokenModel::Hash(s, _)) => {
                let (rest, q) = hashes(vs, p + 1);
                (seq![SimpleSelectorModel::Id(s)] + rest, q)
            },
            _ => (Seq::empty(), p),
        }
    } else {
        (Seq::empty(), p)
    }
}

/// The class selectors from `p` on, while a `.` follows.
pub open spec fn classes(vs: Seq<ComponentValueModel>, p: int) -> Option<(Seq<SimpleSelectorModel>, int)>
    decreases vs.len() - p,
{
    if 0 <= p < vs.len() && is_delim(vs, p, '.') {
        match class(vs, p) {
            None => None,
            Some((c, q)) => if p < q {
                match classes(vs, q) {
                    None => None,
                    Some((rest, q2)) => Some((seq![c] + rest, q2)),
                }
            } else {
                None
            },
        }
    } else {
        Some((Seq::empty(), p))
    }
}

/// The attribute selectors from `p` on, while a block follows.
pub open spec fn attribs(vs: Seq<ComponentValueModel>, p: int) -> Option<(Seq<SimpleSelectorModel>, int)>
    decreases vs.len() - p,
{
    if 0 <= p < vs.len() && vs[p] is SimpleBlock {
        match attrib(vs, p) {
            None => None,
            Some((a, q)) => match attribs(vs, q) {
                None => None,
                Some((rest, q2)) => Some((seq![a] + rest, q2)),
            },
        }
    } else {
        Some((Seq::empty(), p))
    }
}

/// The pseudo-class selectors from `p` on, while a `:` follows.
pub open spec fn pseudos(vs: Seq<ComponentValueModel>, p: int) -> Option<(Seq<SimpleSelectorModel>, int)>
    decreases vs.len() - p,
{
    if 0 <= p < vs.len() && tok(vs, p) == Some(CssTokenModel::Colon) {
        match pseudo(vs, p) {
            None => None,
            Some((c, q)) => if p < q {
                match pseudos(vs, q) {
                    None => None,
                    Some((rest, q2)) => Some((seq![c] + rest, q2)),
                }
            } else {
                None
            },
        }
    } else {
        Some((Seq::empty(), p))
    }
}

/// The run of one kind of selector (hashes, classes, attributes or pseudo-classes)
/// that follows the head of a sequence, chosen by the first component value.
pub open spec fn seq_tail(vs: Seq<ComponentValueModel>, p: int) -> Option<(Seq<SimpleSelectorModel>, int)> {
    if tok(vs, p) matches Some(CssTokenModel::Hash(_, _)) {
        Some(hashes(vs, p))
    } else if is_delim(vs, p, '.') {
        classes(vs, p)
    } else if 0 <= p < vs.len() && vs[p] is SimpleBlock {
        attribs(vs, p)
    } else if tok(vs, p) == Some(CssTokenModel::Colon) {
        pseudos(vs, p)
    } else {
        Some((Seq::empty(), p))
    }
}

/// simple_selector_sequence, which must not be empty.
pub open spec fn simple_selector_seq(vs: Seq<ComponentValueModel>, p: int) -> Option<(Seq<SimpleSelectorModel>, int)> {
    match seq_head(vs, p) {
        None => None,
        Some((head, q)) => match seq_tail(vs, q) {
            None => None,
            Some((tail, q2)) => {
                let l = match head {
                    Some(h) => seq![h] + tail,
                    None => tail,
                };
                if l.len() == 0 {
                    None
                } else {
                    Some((l, q2))
                }
            },
        },
    }
}

/// The component value at `p` is `+`, `>` or `~`.
pub open spec fn is_combinator_delim(vs: Seq<ComponentValueModel>, p: int) -> bool {
    is_delim(vs, p, '+') || is_delim(vs, p, '>') || is_delim(vs, p, '~')
}

/// combinator : PLUS S* | GREATER S* | TILDE S* | S+
pub open spec fn combinator(vs: Seq<ComponentValueModel>, p: int) -> Option<(Combinator, int)> {
    let q = skip_ws(vs, p);
    if is_combinator_delim(vs, q) {
        let c = if is_delim(vs, q, '+') {
            Combinator::Plus
        } else if is_delim(vs, q, '>') {
            Combinator::GreaterThan
        } else {
            Combinator::Tilde
        };
        Some((c, skip_ws(vs, q + 1)))
    } else if q > p {
        Some((Combinator::Whitespace, q))
    } else {
        None
    }
}

/// selector : simple_selector_sequence [ combinator simple_selector_sequence ]*,
/// joined to the right.
pub open spec fn selector(vs: Seq<ComponentValueModel>, p: int) -> Option<(SelectorModel, int)>
    decreases vs.len() - p,
{
    match simple_selector_seq(vs, p) {
        None => None,
        Some((l, q)) => {
            let simple = SelectorModel::Simple(l);
            if is_combinator_delim(vs, q) || tok(vs, q) == Some(CssTokenModel::Whitespace) {
                match combinator(vs, q) {
                    None => None,
                    Some((c, q2)) => if p < q2 <= vs.len() {
                        match selector(vs, q2) {
                            None => None,
                            Some((right, q3)) => Some(
                                (SelectorModel::Complex(Box::new(simple), c, Box::new(right)), q3),
                            ),
                        }
                    } else {
                        None
                    },
                }
            } else {
                Some((simple, q))
            }
        },
    }
}

/// The selectors that follow, each after a comma and whitespace, up to the end.
pub open spec fn more_selectors(vs: Seq<ComponentValueModel>, p: int) -> Option<Seq<SelectorModel>>
    decreases vs.len() - p,
{
    if p >= vs.len() {
        Some(Seq::empty())
    } else if tok(vs, p) == Some(CssTokenModel::Comma) {
        match selector(vs, skip_ws(vs, p + 1)) {
            None => None,
            Some((s, q)) => if p < q <= vs.len() {
                match more_selectors(vs, q) {
                    None => None,
                    Some(rest) => Some(seq![s] + rest),
                }
            } else {
                None
            },
        }
    } else {
        None
    }
}

/// selectors_group : selector [ COMMA S* selector ]*, over the whole list.
pub open spec fn selectors_group(vs: Seq<ComponentValueModel>) -> Option<Seq<SelectorModel>> {
    match selector(vs, 0) {
        None => None,
        Some((s, q)) => match more_selectors(vs, q) {
            None => None,
            Some(rest) => Some(seq![s] + rest),
        },
    }
}

} // verus!
