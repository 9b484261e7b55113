//! The abstract model of CSS parsing: https://www.w3.org/TR/css-syntax-3/#parsing
//!
//! Each spec function reads a list of tokens (as mathematical values) from a cursor `p` and gives what it
//! consumes there and the cursor after it. Reading at the end of the list still
//! moves the cursor.
use vstd::prelude::*;

use crate::css::cssom::{ComponentValueModel, DeclarationModel, RuleModel};
use crate::css::selector_syntax::selectors_group;
use crate::css::tokenization::CssTokenModel;
use crate::text::eq_ignore_ascii_case;

verus! {

broadcast use vstd::seq::group_seq_axioms;

/// What parsing from a cursor gives.
pub enum Parsed<T> {
    /// The result, and the cursor after it.
    Done(T, int),
    /// A selector does not fit the selector grammar.
    InvalidSelector,
    /// The input holds something whose parsing is not supported.
    Unsupported,
}

/// The token at `p`, if there is one.
pub open spec fn tm(ts: Seq<CssTokenModel>, p: int) -> Option<CssTokenModel> {
    if 0 <= p < ts.len() {
        Some(ts[p])
    } else {
        None
    }
}

/// `(`, `[` or `{`.
pub open spec fn is_opener(t: CssTokenModel) -> bool {
    t is OpenParenthesis || t is OpenSquareBracket || t is OpenCurlyBrace
}

/// The token that closes a block opened by `t`.
pub open spec fn closer(t: CssTokenModel) -> CssTokenModel {
    match t {
        CssTokenModel::OpenParenthesis => CssTokenModel::CloseParenthesis,
        CssTokenModel::OpenSquareBracket => CssTokenModel::CloseSquareBracket,
        _ => CssTokenModel::CloseCurlyBrace,
    }
}

/// https://www.w3.org/TR/css-syntax-3/#consume-a-component-value
pub open spec fn component_value(ts: Seq<CssTokenModel>, p: int) -> (ComponentValueModel, int)
    decreases ts.len() - p, 0int,
{
    match tm(ts, p) {
        None => (ComponentValueModel::PreservedToken(CssTokenModel::Eof), p + 1),
        Some(t) => if is_opener(t) {
            let (vs, q) = block_values(ts, p + 1, closer(t));
            (ComponentValueModel::SimpleBlock { associated_token: t, values: vs }, q)
        } else {
            match t {
                CssTokenModel::Function(name) => {
                    let (vs, q) = block_values(ts, p + 1, CssTokenModel::CloseParenthesis);
                    (ComponentValueModel::Function { name, values: vs }, q)
                },
                _ => (ComponentValueModel::PreservedToken(t), p + 1),
            }
        },
    }
}

/// https://www.w3.org/TR/css-syntax-3/#consume-simple-block and
/// https://www.w3.org/TR/css-syntax-3/#consume-function: the component values up to
/// the token `end` (or the end of the input), and the cursor after it.
pub open spec fn block_values(ts: Seq<CssTokenModel>, p: int, end: CssTokenModel) -> (Seq<ComponentValueModel>, int)
    decreases ts.len() - p, 1int,
{
    match tm(ts, p) {
        None => (Seq::empty(), p + 1),
        Some(t) => if t == end || t is Eof {
            (Seq::empty(), p + 1)
        } else {
            let (v, q) = component_value(ts, p);
            if p < q <= ts.len() {
                let (rest, r) = block_values(ts, q, end);
                (seq![v] + rest, r)
            } else {
                (seq![v], q + 1)
            }
        },
    }
}

/// The component value `v` is the preserved token `t`.
pub open spec fn is_token(v: ComponentValueModel, t: CssTokenModel) -> bool {
    v == ComponentValueModel::PreservedToken(t)
}

/// The index of the first component value from `i` on that is not whitespace.
pub open spec fn skip_ws_values(vs: Seq<ComponentValueModel>, i: int) -> int
    decreases vs.len() - i,
{
    if 0 <= i < vs.len() && is_token(vs[i], CssTokenModel::Whitespace) {
        skip_ws_values(vs, i + 1)
    } else {
        i
    }
}

/// The index of the first end-of-file token from `i` on, or the length.
pub open spec fn eof_index(vs: Seq<ComponentValueModel>, i: int) -> int
    decreases vs.len() - i,
{
    if 0 <= i < vs.len() && !is_token(vs[i], CssTokenModel::Eof) {
        eof_index(vs, i + 1)
    } else {
        i
    }
}

/// `vs` without its trailing whitespace tokens.
pub open spec fn trim_ws_end(vs: Seq<ComponentValueModel>) -> Seq<ComponentValueModel>
    decreases vs.len(),
{
    if vs.len() > 0 && is_token(vs.last(), CssTokenModel::Whitespace) {
        trim_ws_end(vs.drop_last())
    } else {
        vs
    }
}

/// `"important"`.
pub open spec fn important_word() -> Seq<char> {
    seq!['i', 'm', 'p', 'o', 'r', 't', 'a', 'n', 't']
}

/// `vs` ends with `!` and an ident `important` (in any ASCII case).
pub open spec fn ends_important(vs: Seq<ComponentValueModel>) -> bool {
    vs.len() >= 2 && is_token(vs[vs.len() - 2], CssTokenModel::Delim('!')) && match vs.last() {
        ComponentValueModel::PreservedToken(CssTokenModel::Ident(s)) => eq_ignore_ascii_case(s, important_word()),
        _ => false,
    }
}

/// https://www.w3.org/TR/css-syntax-3/#consume-declaration, for component values whose
/// first entry is the ident `name`: `Some(None)` where there is no colon after the name,
/// and `None` for an `!important` declaration, which is not supported.
pub open spec fn declaration(name: Seq<char>, vs: Seq<ComponentValueModel>) -> Option<Option<DeclarationModel>> {
    let i = skip_ws_values(vs, 1);
    if !(0 <= i < vs.len() && is_token(vs[i], CssTokenModel::Colon)) {
        Some(None)
    } else {
        let j = skip_ws_values(vs, i + 1);
        let value = vs.subrange(j, eof_index(vs, j));
        if ends_important(value) {
            None
        } else {
            Some(Some(DeclarationModel { name, value: trim_ws_end(value) }))
        }
    }
}

/// The component values from `p` up to a semicolon or end-of-file token; `None` where
/// the list of tokens ends first (the parser would not stop).
pub open spec fn values_to_semicolon(ts: Seq<CssTokenModel>, p: int) -> Option<(Seq<ComponentValueModel>, int)>
    decreases ts.len() - p,
{
    match tm(ts, p) {
        None => None,
        Some(t) => if t is Semicolon || t is Eof {
            Some((Seq::empty(), p))
        } else {
            let (v, q) = component_value(ts, p);
            if p < q <= ts.len() {
                match values_to_semicolon(ts, q) {
                    None => None,
                    Some((rest, r)) => Some((seq![v] + rest, r)),
                }
            } else {
                None
            }
        },
    }
}

/// https://www.w3.org/TR/css-syntax-3/#consume-list-of-declarations, from just after the
/// opening brace, up to the token `end`.
pub open spec fn declarations(ts: Seq<CssTokenModel>, p: int, end: CssTokenModel) -> Parsed<Seq<DeclarationModel>>
    decreases ts.len() - p,
{
    match tm(ts, p) {
        None => Parsed::Done(Seq::empty(), p + 1),
        Some(t) => if t == end || t is Eof {
            Parsed::Done(Seq::empty(), p + 1)
        } else if t is Whitespace || t is Semicolon {
            declarations(ts, p + 1, end)
        } else if t is AtKeyword {
            Parsed::Unsupported
        } else {
            let start = if t is Ident { p + 1 } else { p };
            match values_to_semicolon(ts, start) {
                None => Parsed::Unsupported,
                Some((vs, q)) => {
                    let decl = match t {
                        CssTokenModel::Ident(name) => declaration(
                            name,
                            seq![ComponentValueModel::PreservedToken(t)] + vs,
                        ),
                        _ => Some(None),
                    };
                    match decl {
                        None => Parsed::Unsupported,
                        Some(d) => if p < q <= ts.len() {
                            match declarations(ts, q, end) {
                                Parsed::Done(rest, r) => Parsed::Done(
                                    match d {
                                        Some(x) => seq![x] + rest,
                                        None => rest,
                                    },
                                    r,
                                ),
                                other => other,
                            }
                        } else {
                            Parsed::Unsupported
                        },
                    }
                },
            }
        },
    }
}

/// https://www.w3.org/TR/css-syntax-3/#consume-a-qualified-rule, with `prelude` read so
/// far: `Done(None, _)` where the input ends before the block.
pub open spec fn qualified_rule(ts: Seq<CssTokenModel>, p: int, prelude: Seq<ComponentValueModel>) -> Parsed<Option<RuleModel>>
    decreases ts.len() - p,
{
    match tm(ts, p) {
        None => Parsed::Done(None, p + 1),
        Some(t) => if t is Eof {
            Parsed::Done(None, p + 1)
        } else if t is OpenCurlyBrace {
            match declarations(ts, p + 1, CssTokenModel::CloseCurlyBrace) {
                Parsed::Done(decls, q) => match selectors_group(trim_ws_end(prelude)) {
                    None => Parsed::InvalidSelector,
                    Some(sels) => Parsed::Done(
                        Some(RuleModel::QualifiedRule { selectors: sels, declarations: decls }),
                        q,
                    ),
                },
                _ => Parsed::Unsupported,
            }
        } else {
            let (v, q) = component_value(ts, p);
            if p < q <= ts.len() {
                qualified_rule(ts, q, prelude.push(v))
            } else {
                Parsed::Done(None, q + 1)
            }
        },
    }
}

/// https://www.w3.org/TR/css-syntax-3/#consume-list-of-rules
pub open spec fn rules(ts: Seq<CssTokenModel>, p: int) -> Parsed<Seq<RuleModel>>
    decreases ts.len() - p,
{
    match tm(ts, p) {
        None => Parsed::Done(Seq::empty(), p + 1),
        Some(t) => if t is Eof {
            Parsed::Done(Seq::empty(), p + 1)
        } else if t is Whitespace {
            rules(ts, p + 1)
        } else if t is Cdo || t is Cdc || t is AtKeyword {
            Parsed::Unsupported
        } else {
            match qualified_rule(ts, p, Seq::empty()) {
                Parsed::Done(None, _) => Parsed::Unsupported,
                Parsed::Done(Some(r), q) => if p < q <= ts.len() {
                    match rules(ts, q) {
                        Parsed::Done(rest, e) => Parsed::Done(seq![r] + rest, e),
                        other => other,
                    }
                } else {
                    Parsed::Done(seq![r], q + 1)
                },
                Parsed::InvalidSelector => Parsed::InvalidSelector,
                Parsed::Unsupported => Parsed::Unsupported,
            }
        },
    }
}


/// A component value read where a token is ends after it starts; past the end of the
/// tokens, each block left open moves the cursor one more place.
pub proof fn lemma_component_value_progress(ts: Seq<CssTokenModel>, p: int)
    requires
        0 <= p < ts.len(),
    ensures
        p < component_value(ts, p).1 <= 2 * ts.len() + 1 - p,
    decreases ts.len() - p, 0int,
{
    if is_opener(ts[p]) || ts[p] is Function {
        lemma_block_values_bound(ts, p + 1, if is_opener(ts[p]) {
            closer(ts[p])
        } else {
            CssTokenModel::CloseParenthesis
        });
    }
}

/// The values of a block end after they start, and not far past the end of the tokens.
pub proof fn lemma_block_values_bound(ts: Seq<CssTokenModel>, p: int, end: CssTokenModel)
    requires
        0 <= p <= ts.len(),
    ensures
        p < block_values(ts, p, end).1 <= 2 * ts.len() + 2 - p,
    decreases ts.len() - p, 1int,
{
    if let Some(t) = tm(ts, p) {
        if !(t == end || t is Eof) {
            lemma_component_value_progress(ts, p);
            let (v, q) = component_value(ts, p);
            if p < q <= ts.len() {
                lemma_block_values_bound(ts, q, end);
            }
        }
    }
}


/// A list of declarations ends after it starts.
pub proof fn lemma_declarations_progress(ts: Seq<CssTokenModel>, p: int, end: CssTokenModel)
    requires
        0 <= p,
    ensures
        declarations(ts, p, end) matches Parsed::Done(_, q) ==> p < q,
    decreases ts.len() - p,
{
    if let Some(t) = tm(ts, p) {
        if !(t == end || t is Eof) {
            if t is Whitespace || t is Semicolon {
                lemma_declarations_progress(ts, p + 1, end);
            } else if !(t is AtKeyword) {
                let start = if t is Ident { p + 1 } else { p };
                if let Some((vs, q)) = values_to_semicolon(ts, start) {
                    if p < q <= ts.len() {
                        lemma_declarations_progress(ts, q, end);
                    }
                }
            }
        }
    }
}

/// A qualified rule ends after it starts.
pub proof fn lemma_qualified_rule_progress(ts: Seq<CssTokenModel>, p: int, prelude: Seq<ComponentValueModel>)
    requires
        0 <= p,
    ensures
        qualified_rule(ts, p, prelude) matches Parsed::Done(_, q) ==> p < q,
    decreases ts.len() - p,
{
    if let Some(t) = tm(ts, p) {
        if !(t is Eof) {
            if t is OpenCurlyBrace {
                lemma_declarations_progress(ts, p + 1, CssTokenModel::CloseCurlyBrace);
            } else {
                lemma_component_value_progress(ts, p);
                let (v, q) = component_value(ts, p);
                if p < q <= ts.len() {
                    lemma_qualified_rule_progress(ts, q, prelude.push(v));
                }
            }
        }
    }
}

/// A token that stands for itself among component values: it opens no block, starts
/// no function and is not the end of the input.
pub open spec fn plain(x: CssTokenModel) -> bool {
    !is_opener(x) && !(x is Function) && !(x is Eof)
}

/// Each block is closed by its own closing token: `(` by `)`, `[` by `]` and `{` by
/// `}`, and a function by `)`. An empty block ends just after its closing token, and
/// any other plain token inside a block (another kind of closing token among them) is
/// one of its values.
pub proof fn lemma_blocks_close(ts: Seq<CssTokenModel>, p: int, x: CssTokenModel, name: Seq<char>)
    requires
        0 <= p,
        plain(x),
    ensures
        (tm(ts, p) == Some(CssTokenModel::OpenParenthesis) && tm(ts, p + 1) == Some(CssTokenModel::CloseParenthesis))
            ==> component_value(ts, p) == (
        ComponentValueModel::SimpleBlock { associated_token: CssTokenModel::OpenParenthesis, values: Seq::empty() },
            p + 2),
        (tm(ts, p) == Some(CssTokenModel::OpenSquareBracket) && tm(ts, p + 1) == Some(
            CssTokenModel::CloseSquareBracket,
        )) ==> component_value(ts, p) == (
        ComponentValueModel::SimpleBlock { associated_token: CssTokenModel::OpenSquareBracket, values: Seq::empty() },
            p + 2),
        (tm(ts, p) == Some(CssTokenModel::OpenCurlyBrace) && tm(ts, p + 1) == Some(CssTokenModel::CloseCurlyBrace))
            ==> component_value(ts, p) == (
        ComponentValueModel::SimpleBlock { associated_token: CssTokenModel::OpenCurlyBrace, values: Seq::empty() },
            p + 2),
        (tm(ts, p) == Some(CssTokenModel::OpenParenthesis) && tm(ts, p + 1) == Some(x) && x
            != CssTokenModel::CloseParenthesis && tm(ts, p + 2) == Some(CssTokenModel::CloseParenthesis))
            ==> component_value(ts, p) == (
        ComponentValueModel::SimpleBlock {
            associated_token: CssTokenModel::OpenParenthesis,
            values: seq![ComponentValueModel::PreservedToken(x)],
        },
            p + 3),
        (tm(ts, p) == Some(CssTokenModel::OpenSquareBracket) && tm(ts, p + 1) == Some(x) && x
            != CssTokenModel::CloseSquareBracket && tm(ts, p + 2) == Some(CssTokenModel::CloseSquareBracket))
            ==> component_value(ts, p) == (
        ComponentValueModel::SimpleBlock {
            associated_token: CssTokenModel::OpenSquareBracket,
            values: seq![ComponentValueModel::PreservedToken(x)],
        },
            p + 3),
        (tm(ts, p) == Some(CssTokenModel::OpenCurlyBrace) && tm(ts, p + 1) == Some(x) && x
            != CssTokenModel::CloseCurlyBrace && tm(ts, p + 2) == Some(CssTokenModel::CloseCurlyBrace))
            ==> component_value(ts, p) == (
        ComponentValueModel::SimpleBlock {
            associated_token: CssTokenModel::OpenCurlyBrace,
            values: seq![ComponentValueModel::PreservedToken(x)],
        },
            p + 3),
        (tm(ts, p) == Some(CssTokenModel::Function(name)) && tm(ts, p + 1) == Some(x) && x
            != CssTokenModel::CloseParenthesis && tm(ts, p + 2) == Some(CssTokenModel::CloseParenthesis))
            ==> component_value(ts, p) == (
        ComponentValueModel::Function { name, values: seq![ComponentValueModel::PreservedToken(x)] },
            p + 3),
{
    if 0 <= p && p + 2 < ts.len() {
        if let Some(t) = tm(ts, p) {
            if is_opener(t) || t is Function {
                let end = if is_opener(t) {
                    closer(t)
                } else {
                    CssTokenModel::CloseParenthesis
                };
                if tm(ts, p + 1) == Some(x) && x != end && tm(ts, p + 2) == Some(end) {
                    assert(component_value(ts, p + 1) == (ComponentValueModel::PreservedToken(x), p + 2));
                    assert(block_values(ts, p + 2, end) == (Seq::<ComponentValueModel>::empty(), p + 3));
                    assert(block_values(ts, p + 1, end).0 =~= seq![ComponentValueModel::PreservedToken(x)]);
                }
            }
        }
    }
}

/// A declaration is a property name, a colon and a value, with whitespace allowed
/// around the colon and after the value: `name: x` gives the declaration of `name`
/// with the value `x` alone. Without the colon there is no declaration, and a value
/// marked `!important` is not supported.
pub proof fn lemma_declaration_shape(name: Seq<char>, x: CssTokenModel, imp: Seq<char>)
    requires
        plain(x),
        x != CssTokenModel::Whitespace,
        x != CssTokenModel::Colon,
        eq_ignore_ascii_case(imp, important_word()),
    ensures
        declaration(
            name,
            seq![
                ComponentValueModel::PreservedToken(CssTokenModel::Ident(name)),
                ComponentValueModel::PreservedToken(CssTokenModel::Colon),
                ComponentValueModel::PreservedToken(x),
            ],
        ) == Some(Some(DeclarationModel { name, value: seq![ComponentValueModel::PreservedToken(x)] })),
        declaration(
            name,
            seq![
                ComponentValueModel::PreservedToken(CssTokenModel::Ident(name)),
                ComponentValueModel::PreservedToken(CssTokenModel::Whitespace),
                ComponentValueModel::PreservedToken(CssTokenModel::Colon),
                ComponentValueModel::PreservedToken(CssTokenModel::Whitespace),
                ComponentValueModel::PreservedToken(x),
                ComponentValueModel::PreservedToken(CssTokenModel::Whitespace),
            ],
        ) == Some(Some(DeclarationModel { name, value: seq![ComponentValueModel::PreservedToken(x)] })),
        declaration(
            name,
            seq![
                ComponentValueModel::PreservedToken(CssTokenModel::Ident(name)),
                ComponentValueModel::PreservedToken(x),
            ],
        ) == Some(None::<DeclarationModel>),
        declaration(
            name,
            seq![
                ComponentValueModel::PreservedToken(CssTokenModel::Ident(name)),
                ComponentValueModel::PreservedToken(CssTokenModel::Colon),
                ComponentValueModel::PreservedToken(x),
                ComponentValueModel::PreservedToken(CssTokenModel::Delim('!')),
                ComponentValueModel::PreservedToken(CssTokenModel::Ident(imp)),
            ],
        ) is None,
{
    let px = ComponentValueModel::PreservedToken(x);
    let ws = ComponentValueModel::PreservedToken(CssTokenModel::Whitespace);
    let colon = ComponentValueModel::PreservedToken(CssTokenModel::Colon);
    let id = ComponentValueModel::PreservedToken(CssTokenModel::Ident(name));
    // `name:x`
    let v1 = seq![id, colon, px];
    assert(skip_ws_values(v1, 1) == 1);
    assert(skip_ws_values(v1, 2) == 2);
    assert(eof_index(v1, 3) == 3);
    assert(eof_index(v1, 2) == 3);
    assert(v1.subrange(2, 3) =~= seq![px]);
    assert(trim_ws_end(seq![px]) == seq![px]);
    // `name : x ` with whitespace
    let v2 = seq![id, ws, colon, ws, px, ws];
    assert(skip_ws_values(v2, 2) == 2);
    assert(skip_ws_values(v2, 1) == 2);
    assert(skip_ws_values(v2, 4) == 4);
    assert(skip_ws_values(v2, 3) == 4);
    assert(eof_index(v2, 6) == 6);
    assert(eof_index(v2, 5) == 6);
    assert(eof_index(v2, 4) == 6);
    assert(v2.subrange(4, 6) =~= seq![px, ws]);
    assert(seq![px, ws].drop_last() =~= seq![px]);
    assert(trim_ws_end(seq![px]) == seq![px]);
    assert(trim_ws_end(seq![px, ws]) == seq![px]);
    // `name x`
    let v3 = seq![id, px];
    assert(skip_ws_values(v3, 1) == 1);
    // `name:x!important`
    let bang = ComponentValueModel::PreservedToken(CssTokenModel::Delim('!'));
    let im = ComponentValueModel::PreservedToken(CssTokenModel::Ident(imp));
    let v4 = seq![id, colon, px, bang, im];
    assert(skip_ws_values(v4, 1) == 1);
    assert(skip_ws_values(v4, 2) == 2);
    assert(eof_index(v4, 5) == 5);
    assert(eof_index(v4, 4) == 5);
    assert(eof_index(v4, 3) == 5);
    assert(eof_index(v4, 2) == 5);
    assert(v4.subrange(2, 5) =~= seq![px, bang, im]);
    assert(ends_important(seq![px, bang, im]));
}
} // verus!
