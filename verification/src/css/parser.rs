//! CSS parsing: https://www.w3.org/TR/css-syntax-3/#parsing
use vstd::prelude::*;

use crate::css::cssom::{
    ComponentValue, ComponentValueModel, Declaration, DeclarationModel, QualifiedRule, Rule, StyleSheet,
    cv_view, cvs_view, declaration_view, declarations_view, lemma_cvs_view, rule_view, rules_view,
};
use crate::css::parsing::{
    Parsed, block_values, closer, component_value, declaration, declarations, eof_index,
    is_opener, is_token, lemma_block_values_bound, lemma_component_value_progress,
    lemma_declarations_progress, lemma_qualified_rule_progress, qualified_rule,
    rules, skip_ws_values, tm, trim_ws_end, values_to_semicolon,
};
use crate::css::selector::{SelectorParser, blocks_fit};
use crate::css::token::{CssToken, NumericType, css_tokens_view};
use crate::css::tokenization::CssTokenModel;
use crate::error::Error;

verus! {

broadcast use {vstd::seq::group_seq_axioms, crate::css::cssom::lemma_cvs_view};

/// A copy of `n`.
pub(crate) fn copy_number(n: &NumericType) -> (r: NumericType)
    ensures
        r@ == n@,
{
    match n {
        NumericType::Integer(i) => NumericType::Integer(*i),
        NumericType::Number(s) => NumericType::Number(s.clone()),
    }
}

/// A copy of `t`.
pub(crate) fn copy_token(t: &CssToken) -> (r: CssToken)
    ensures
        r@ == t@,
{
    match t {
        CssToken::Ident(s) => CssToken::Ident(s.clone()),
        CssToken::Function(s) => CssToken::Function(s.clone()),
        CssToken::AtKeyword(s) => CssToken::AtKeyword(s.clone()),
        CssToken::Hash(s, k) => CssToken::Hash(s.clone(), *k),
        CssToken::String(s) => CssToken::String(s.clone()),
        CssToken::BadString => CssToken::BadString,
        CssToken::Url(s) => CssToken::Url(s.clone()),
        CssToken::BadUrl => CssToken::BadUrl,
        CssToken::Delim(c) => CssToken::Delim(*c),
        CssToken::Number(n) => CssToken::Number(copy_number(n)),
        CssToken::Percentage(n) => CssToken::Percentage(copy_number(n)),
        CssToken::Dimension(n, u) => CssToken::Dimension(copy_number(n), u.clone()),
        CssToken::Whitespace => CssToken::Whitespace,
        CssToken::Cdo => CssToken::Cdo,
        CssToken::Cdc => CssToken::Cdc,
        CssToken::Colon => CssToken::Colon,
        CssToken::Semicolon => CssToken::Semicolon,
        CssToken::Comma => CssToken::Comma,
        CssToken::OpenSquareBracket => CssToken::OpenSquareBracket,
        CssToken::CloseSquareBracket => CssToken::CloseSquareBracket,
        CssToken::OpenParenthesis => CssToken::OpenParenthesis,
        CssToken::CloseParenthesis => CssToken::CloseParenthesis,
        CssToken::OpenCurlyBrace => CssToken::OpenCurlyBrace,
        CssToken::CloseCurlyBrace => CssToken::CloseCurlyBrace,
        CssToken::Eof => CssToken::Eof,
    }
}

/// Whether `t` opens a block.
fn is_block_opener(t: &CssToken) -> (r: bool)
    ensures
        r == is_opener(t@),
{
    match t {
        CssToken::OpenParenthesis | CssToken::OpenSquareBracket | CssToken::OpenCurlyBrace => true,
        _ => false,
    }
}

/// Whether `t` is the token that closes a block opened by `open`.
fn closes(t: &CssToken, open: &CssToken) -> (r: bool)
    ensures
        r == (t@ == closer(open@)),
{
    match (open, t) {
        (CssToken::OpenParenthesis, CssToken::CloseParenthesis) => true,
        (CssToken::OpenSquareBracket, CssToken::CloseSquareBracket) => true,
        (CssToken::OpenParenthesis, _) | (CssToken::OpenSquareBracket, _) => false,
        (_, CssToken::CloseCurlyBrace) => true,
        _ => false,
    }
}

fn is_eof(t: &CssToken) -> (r: bool)
    ensures
        r == (t@ is Eof),
{
    match t {
        CssToken::Eof => true,
        _ => false,
    }
}

/// https://www.w3.org/TR/css-syntax-3/#consume-a-component-value
fn consume_component_value(ts: &[CssToken], p: usize) -> (r: (ComponentValue, usize))
    requires
        p < ts@.len(),
        2 * ts@.len() + 8 < usize::MAX,
    ensures
        (cv_view(r.0), r.1 as int) == component_value(css_tokens_view(ts@), p as int),
    decreases ts@.len() - p, 0int,
{
    let t = &ts[p];
    if is_block_opener(t) {
        let (values, q) = consume_block_values(ts, p + 1, t);
        (ComponentValue::SimpleBlock { associated_token: copy_token(t), values }, q)
    } else {
        match t {
            CssToken::Function(name) => {
                let (values, q) = consume_block_values(ts, p + 1, &CssToken::OpenParenthesis);
                (ComponentValue::Function { name: name.clone(), values }, q)
            },
            _ => (ComponentValue::PreservedToken(copy_token(t)), p + 1),
        }
    }
}

/// https://www.w3.org/TR/css-syntax-3/#consume-simple-block and
/// https://www.w3.org/TR/css-syntax-3/#consume-function, from just after `open`.
fn consume_block_values(ts: &[CssToken], p: usize, open: &CssToken) -> (r: (Vec<ComponentValue>, usize))
    requires
        p <= ts@.len(),
        2 * ts@.len() + 8 < usize::MAX,
        is_opener(open@),
    ensures
        (cvs_view(r.0@), r.1 as int) == block_values(css_tokens_view(ts@), p as int, closer(open@)),
    decreases ts@.len() - p, 1int,
{
    let ghost end = closer(open@);
    let mut values: Vec<ComponentValue> = Vec::new();
    let mut q = p;
    loop
        invariant
            p <= q <= ts@.len(),
            2 * ts@.len() + 8 < usize::MAX,
            end == closer(open@),
            block_values(css_tokens_view(ts@), p as int, end) == ({
                let (rest, e) = block_values(css_tokens_view(ts@), q as int, end);
                (cvs_view(values@) + rest, e)
            }),
        decreases ts@.len() - q,
    {
        if q >= ts.len() {
            assert(cvs_view(values@) + Seq::<ComponentValueModel>::empty() =~= cvs_view(values@));
            return (values, q + 1);
        }
        let t = &ts[q];
        if closes(t, open) || is_eof(t) {
            assert(cvs_view(values@) + Seq::<ComponentValueModel>::empty() =~= cvs_view(values@));
            return (values, q + 1);
        }
        let ghost before = values@;
        let (v, q2) = consume_component_value(ts, q);
        values.push(v);
        assert(cvs_view(values@) =~= cvs_view(before).push(cv_view(v)));
        proof {
            lemma_component_value_progress(css_tokens_view(ts@), q as int);
        }
        if q2 > ts.len() {
            assert(block_values(css_tokens_view(ts@), q as int, end) == (seq![cv_view(v)], q2 + 1));
            assert(cvs_view(before) + seq![cv_view(v)] =~= cvs_view(values@));
            return (values, q2 + 1);
        }
        assert(cvs_view(before) + (seq![cv_view(v)] + block_values(css_tokens_view(ts@), q2 as int, end).0) =~= cvs_view(values@)
            + block_values(css_tokens_view(ts@), q2 as int, end).0);
        q = q2;
    }
}

/// The values of a block are no more than the tokens read for them.
proof fn lemma_block_values_len(ts: Seq<CssTokenModel>, p: int, end: CssTokenModel)
    requires
        0 <= p <= ts.len(),
    ensures
        block_values(ts, p, end).0.len() <= block_values(ts, p, end).1 - p,
    decreases ts.len() - p, 1int,
{
    if let Some(t) = tm(ts, p) {
        if !(t == end || t is Eof) {
            lemma_component_value_progress(ts, p);
            let (v, q) = component_value(ts, p);
            if p < q <= ts.len() {
                lemma_block_values_len(ts, q, end);
            }
        }
    }
}

/// A component value read where a token is holds, if it is a block, no more values
/// than twice the number of tokens.
proof fn lemma_component_block_len(ts: Seq<CssTokenModel>, p: int)
    requires
        0 <= p < ts.len(),
    ensures
        component_value(ts, p).0 matches ComponentValueModel::SimpleBlock { values, .. } ==> values.len()
            <= 2 * ts.len() + 2,
{
    if is_opener(ts[p]) {
        lemma_block_values_len(ts, p + 1, closer(ts[p]));
        lemma_block_values_bound(ts, p + 1, closer(ts[p]));
    }
}

/// Every block among `vs` holds no more than `bound` values.
pub open spec fn blocks_within(vs: Seq<ComponentValueModel>, bound: int) -> bool {
    forall|k: int|
        0 <= k < vs.len() ==> (#[trigger] vs[k] matches ComponentValueModel::SimpleBlock { values, .. }
            ==> values.len() <= bound)
}

/// The component values from `p` up to a semicolon or end-of-file token.
#[verifier::loop_isolation(false)]
fn consume_values_to_semicolon(ts: &[CssToken], p: usize) -> (r: (Vec<ComponentValue>, usize))
    requires
        p <= ts@.len(),
        2 * ts@.len() + 8 < usize::MAX,
        values_to_semicolon(css_tokens_view(ts@), p as int) is Some,
    ensures
        values_to_semicolon(css_tokens_view(ts@), p as int) == Some((cvs_view(r.0@), r.1 as int)),
        r.1 < ts@.len(),
        r.0@.len() <= r.1 - p,
{
    let mut values: Vec<ComponentValue> = Vec::new();
    let mut q = p;
    loop
        invariant
            p <= q <= ts@.len(),
            values@.len() <= q - p,
            values_to_semicolon(css_tokens_view(ts@), q as int) is Some,
            values_to_semicolon(css_tokens_view(ts@), p as int) == ({
                let (rest, e) = values_to_semicolon(css_tokens_view(ts@), q as int).unwrap();
                Some((cvs_view(values@) + rest, e))
            }),
        decreases ts@.len() - q,
    {
        let t = &ts[q];
        let stop = match t {
            CssToken::Semicolon | CssToken::Eof => true,
            _ => false,
        };
        if stop {
            assert(cvs_view(values@) + Seq::<ComponentValueModel>::empty() =~= cvs_view(values@));
            return (values, q);
        }
        let ghost before = values@;
        let (v, q2) = consume_component_value(ts, q);
        proof {
            lemma_component_value_progress(css_tokens_view(ts@), q as int);
        }
        values.push(v);
        assert(cvs_view(values@) =~= cvs_view(before).push(cv_view(v)));
        assert(cvs_view(before) + (seq![cv_view(v)] + values_to_semicolon(css_tokens_view(ts@), q2 as int).unwrap().0) =~= cvs_view(values@)
            + values_to_semicolon(css_tokens_view(ts@), q2 as int).unwrap().0);
        q = q2;
    }
}

/// Whether the component value is the preserved token `Whitespace`.
fn is_whitespace_value(v: &ComponentValue) -> (r: bool)
    ensures
        r == is_token(cv_view(*v), CssTokenModel::Whitespace),
{
    match v {
        ComponentValue::PreservedToken(CssToken::Whitespace) => true,
        _ => false,
    }
}

/// https://www.w3.org/TR/css-syntax-3/#consume-declaration, for component values whose
/// first entry is an ident token.
#[verifier::loop_isolation(false)]
fn consume_declaration(name: String, component_values: Vec<ComponentValue>) -> (r: Option<Declaration>)
    requires
        component_values@.len() >= 1,
        component_values@.len() < usize::MAX - 4,
        declaration(name@, cvs_view(component_values@)) is Some,
    ensures
        declaration(name@, cvs_view(component_values@)) == Some(
            match r {
                Some(d) => Some(declaration_view(d)),
                None => None::<DeclarationModel>,
            },
        ),
{
    let ghost vs = cvs_view(component_values@);
    let mut component_values = component_values;
    let n = component_values.len();
    let mut i: usize = 1;
    while i < n && is_whitespace_value(&component_values[i])
        invariant
            1 <= i <= n,
            n == component_values@.len(),
            vs == cvs_view(component_values@),
            skip_ws_values(vs, 1) == skip_ws_values(vs, i as int),
        decreases n - i,
    {
        i = i + 1;
    }
    let is_colon = i < n && match &component_values[i] {
        ComponentValue::PreservedToken(CssToken::Colon) => true,
        _ => false,
    };
    if !is_colon {
        return None;
    }
    let mut j: usize = i + 1;
    while j < n && is_whitespace_value(&component_values[j])
        invariant
            i + 1 <= j <= n,
            n == component_values@.len(),
            vs == cvs_view(component_values@),
            skip_ws_values(vs, i + 1) == skip_ws_values(vs, j as int),
        decreases n - j,
    {
        j = j + 1;
    }
    let mut k: usize = j;
    while k < n && !is_eof_value(&component_values[k])
        invariant
            j <= k <= n,
            n == component_values@.len(),
            vs == cvs_view(component_values@),
            eof_index(vs, j as int) == eof_index(vs, k as int),
        decreases n - k,
    {
        k = k + 1;
    }
    let mut value = component_values.split_off(j);
    value.truncate(k - j);
    assert(cvs_view(value@) =~= vs.subrange(j as int, k as int));
    loop
        invariant
            trim_ws_end(vs.subrange(j as int, k as int)) == trim_ws_end(cvs_view(value@)),
        decreases value@.len(),
    {
        if value.len() == 0 || !is_whitespace_value(&value[value.len() - 1]) {
            break;
        }
        let ghost before = value@;
        value.pop();
        assert(cvs_view(value@) =~= cvs_view(before).drop_last());
    }
    Some(Declaration { name, value })
}

fn is_eof_value(v: &ComponentValue) -> (r: bool)
    ensures
        r == is_token(cv_view(*v), CssTokenModel::Eof),
{
    match v {
        ComponentValue::PreservedToken(CssToken::Eof) => true,
        _ => false,
    }
}

/// https://www.w3.org/TR/css-syntax-3/#consume-list-of-declarations, from just after `{`.
#[verifier::loop_isolation(false)]
fn consume_list_of_declarations(ts: &[CssToken], p: usize) -> (r: (Vec<Declaration>, usize))
    requires
        p <= ts@.len(),
        2 * ts@.len() + 8 < usize::MAX,
        declarations(css_tokens_view(ts@), p as int, CssTokenModel::CloseCurlyBrace) is Done,
    ensures
        declarations(css_tokens_view(ts@), p as int, CssTokenModel::CloseCurlyBrace) == Parsed::Done(
            declarations_view(r.0@),
            r.1 as int,
        ),
{
    let ghost end = CssTokenModel::CloseCurlyBrace;
    let mut decls: Vec<Declaration> = Vec::new();
    let mut q = p;
    loop
        invariant
            p <= q <= ts@.len(),
            declarations(css_tokens_view(ts@), q as int, end) is Done,
            declarations(css_tokens_view(ts@), p as int, end) == match declarations(css_tokens_view(ts@), q as int, end) {
                Parsed::Done(rest, e) => Parsed::Done(declarations_view(decls@) + rest, e),
                other => other,
            },
        decreases ts@.len() - q,
    {
        if q >= ts.len() {
            assert(declarations_view(decls@) + Seq::<DeclarationModel>::empty() =~= declarations_view(decls@));
            return (decls, q + 1);
        }
        let t = &ts[q];
        let kind: u8 = match t {
            CssToken::CloseCurlyBrace | CssToken::Eof => 0,
            CssToken::Whitespace | CssToken::Semicolon => 1,
            CssToken::Ident(_) => 2,
            _ => 3,
        };
        if kind == 0 {
            assert(declarations_view(decls@) + Seq::<DeclarationModel>::empty() =~= declarations_view(decls@));
            return (decls, q + 1);
        } else if kind == 1 {
            q = q + 1;
        } else if kind == 2 {
            let name = match t {
                CssToken::Ident(n) => n.clone(),
                _ => String::new(),
            };
            let (vs, q2) = consume_values_to_semicolon(ts, q + 1);
            let mut tmp: Vec<ComponentValue> = Vec::new();
            tmp.push(ComponentValue::PreservedToken(copy_token(t)));
            let mut vs = vs;
            let ghost vsv = cvs_view(vs@);
            tmp.append(&mut vs);
            assert(cvs_view(tmp@) =~= seq![ComponentValueModel::PreservedToken(t@)] + vsv);
            let ghost before = decls@;
            match consume_declaration(name, tmp) {
                Some(d) => {
                    decls.push(d);
                    assert(declarations_view(decls@) =~= declarations_view(before).push(declaration_view(d)));
                    assert(declarations_view(before) + (seq![declaration_view(d)] + declarations(css_tokens_view(ts@), q2 as int, end)->Done_0)
                        =~= declarations_view(decls@) + declarations(css_tokens_view(ts@), q2 as int, end)->Done_0);
                },
                None => {},
            }
            q = q2;
        } else {
            let (_, q2) = consume_values_to_semicolon(ts, q);
            q = q2;
        }
    }
}

/// Removes the whitespace tokens at the end of `buf`.
#[verifier::loop_isolation(false)]
fn trim_trailing_whitespace(buf: &mut Vec<ComponentValue>, bound: Ghost<int>)
    requires
        blocks_within(cvs_view(old(buf)@), bound@),
        bound@ < usize::MAX - 4,
    ensures
        cvs_view(final(buf)@) == trim_ws_end(cvs_view(old(buf)@)),
        final(buf)@.len() <= old(buf)@.len(),
        blocks_fit(final(buf)@),
{
    let ghost prelude = cvs_view(buf@);
    loop
        invariant
            trim_ws_end(prelude) == trim_ws_end(cvs_view(buf@)),
            blocks_within(cvs_view(buf@), bound@),
            buf@.len() <= old(buf)@.len(),
        decreases buf@.len(),
    {
        if buf.len() == 0 || !is_whitespace_value(&buf[buf.len() - 1]) {
            break;
        }
        let ghost before = buf@;
        buf.pop();
        assert(cvs_view(buf@) =~= cvs_view(before).drop_last());
    }
    assert(trim_ws_end(cvs_view(buf@)) == cvs_view(buf@));
    assert forall|k: int| 0 <= k < buf@.len() implies (#[trigger] buf@[k] matches ComponentValue::SimpleBlock {
        values,
        ..
    } ==> values@.len() < usize::MAX - 4) by {
        assert(cvs_view(buf@)[k] == cv_view(buf@[k]));
        if let ComponentValue::SimpleBlock { values, .. } = buf@[k] {
            assert(cvs_view(values@).len() == values@.len());
        }
    }
}

/// https://www.w3.org/TR/css-syntax-3/#consume-a-qualified-rule: `None` where the tokens
/// end before the block of declarations.
#[verifier::loop_isolation(false)]
fn consume_qualified_rule(ts: &[CssToken], p: usize) -> (r: Result<Option<(QualifiedRule, usize)>, Error>)
    requires
        p < ts@.len(),
        2 * ts@.len() + 8 < usize::MAX,
        !(qualified_rule(css_tokens_view(ts@), p as int, Seq::empty()) is Unsupported),
    ensures
        match qualified_rule(css_tokens_view(ts@), p as int, Seq::empty()) {
            Parsed::Done(Some(m), q) => r matches Ok(Some((rule, q2))) && rule_view(
                Rule::QualifiedRule(rule),
            ) == m && q2 == q,
            Parsed::Done(None, _) => r matches Ok(None),
            Parsed::InvalidSelector => r == Err::<Option<(QualifiedRule, usize)>, Error>(Error::InvalidSelector),
            Parsed::Unsupported => false,
        },
{
    let mut selectors_buf: Vec<ComponentValue> = Vec::new();
    let mut q = p;
    loop
        invariant
            p <= q <= ts@.len(),
            qualified_rule(css_tokens_view(ts@), p as int, Seq::empty()) == qualified_rule(css_tokens_view(ts@), q as int, cvs_view(selectors_buf@)),
            blocks_within(cvs_view(selectors_buf@), 2 * ts@.len() as int + 2),
            selectors_buf@.len() <= q - p,
        decreases ts@.len() - q,
    {
        if q >= ts.len() {
            return Ok(None);
        }
        let t = &ts[q];
        let kind: u8 = match t {
            CssToken::Eof => 0,
            CssToken::OpenCurlyBrace => 1,
            _ => 2,
        };
        if kind == 0 {
            return Ok(None);
        } else if kind == 1 {
            proof {
                lemma_declarations_progress(css_tokens_view(ts@), q + 1, CssTokenModel::CloseCurlyBrace);
            }
            let (declarations, q2) = consume_list_of_declarations(ts, q + 1);
            // Trailing whitespace cannot be parsed by the selector grammar.
            trim_trailing_whitespace(&mut selectors_buf, Ghost(2 * ts@.len() as int + 2));
            let mut parser = SelectorParser::new(selectors_buf);
            let selectors = match parser.parse() {
                Ok(s) => s,
                Err(_) => {
                    return Err(Error::InvalidSelector);
                },
            };
            return Ok(Some((QualifiedRule { selectors, declarations }, q2)));
        } else {
            let ghost before = selectors_buf@;
            let (v, q2) = consume_component_value(ts, q);
            proof {
                lemma_component_value_progress(css_tokens_view(ts@), q as int);
                lemma_component_block_len(css_tokens_view(ts@), q as int);
            }
            selectors_buf.push(v);
            assert(cvs_view(selectors_buf@) =~= cvs_view(before).push(cv_view(v)));
            if q2 > ts.len() {
                return Ok(None);
            }
            q = q2;
        }
    }
}

/// https://www.w3.org/TR/css-syntax-3/#consume-list-of-rules
#[verifier::loop_isolation(false)]
fn consume_list_of_rules(ts: &[CssToken], p: usize) -> (r: Result<Vec<Rule>, Error>)
    requires
        p <= ts@.len(),
        2 * ts@.len() + 8 < usize::MAX,
        !(rules(css_tokens_view(ts@), p as int) is Unsupported),
    ensures
        match rules(css_tokens_view(ts@), p as int) {
            Parsed::Done(rs, _) => r is Ok && rules_view(r->Ok_0@) == rs,
            Parsed::InvalidSelector => r == Err::<Vec<Rule>, Error>(Error::InvalidSelector),
            Parsed::Unsupported => false,
        },
{
    let mut out: Vec<Rule> = Vec::new();
    let mut q = p;
    loop
        invariant
            p <= q <= ts@.len(),
            !(rules(css_tokens_view(ts@), q as int) is Unsupported),
            match rules(css_tokens_view(ts@), p as int) {
                Parsed::Done(rs, _) => rules(css_tokens_view(ts@), q as int) matches Parsed::Done(rest, _) && rs == rules_view(out@)
                    + rest,
                other => rules(css_tokens_view(ts@), q as int) == other,
            },
        decreases ts@.len() - q,
    {
        if q >= ts.len() {
            assert(rules_view(out@) + Seq::empty() =~= rules_view(out@));
            return Ok(out);
        }
        let kind: u8 = match &ts[q] {
            CssToken::Eof => 0,
            CssToken::Whitespace => 1,
            _ => 2,
        };
        if kind == 0 {
            assert(rules_view(out@) + Seq::empty() =~= rules_view(out@));
            return Ok(out);
        } else if kind == 1 {
            q = q + 1;
        } else {
            proof {
                lemma_qualified_rule_progress(css_tokens_view(ts@), q as int, Seq::empty());
            }
            let (rule, q2) = match consume_qualified_rule(ts, q) {
                Ok(Some(r)) => r,
                Ok(None) => {
                    return Err(Error::InvalidSelector);
                },
                Err(e) => {
                    return Err(e);
                },
            };
            let ghost before = out@;
            let rule = Rule::QualifiedRule(rule);
            out.push(rule);
            assert(rules_view(out@) =~= rules_view(before).push(rule_view(rule)));
            if q2 > ts.len() {
                assert(rules_view(before) + seq![rule_view(rule)] =~= rules_view(out@));
                return Ok(out);
            }
            proof {
                if let Parsed::Done(rest, _) = rules(css_tokens_view(ts@), q2 as int) {
                    assert(rules_view(before) + (seq![rule_view(rule)] + rest) =~= rules_view(out@) + rest);
                }
            }
            q = q2;
        }
    }
}

/// Parses a list of tokens as a style sheet, using the normal parser entry point.
/// https://www.w3.org/TR/css-syntax-3/#parse-stylesheet
pub fn parse(tokens: &[CssToken]) -> (r: Result<StyleSheet, Error>)
    requires
        2 * tokens@.len() + 8 < usize::MAX,
        !(rules(css_tokens_view(tokens@), 0) is Unsupported),
    ensures
        match rules(css_tokens_view(tokens@), 0) {
            Parsed::Done(rs, _) => r matches Ok(sheet) && rules_view(sheet.rules@) == rs,
            Parsed::InvalidSelector => r == Err::<StyleSheet, Error>(Error::InvalidSelector),
            Parsed::Unsupported => false,
        },
{
    let rules = consume_list_of_rules(tokens, 0)?;
    Ok(StyleSheet::new(rules))
}
} // verus!
