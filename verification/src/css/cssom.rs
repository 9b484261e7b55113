//! The CSS object model: style sheets, rules, declarations and component values.
use vstd::prelude::*;

use crate::css::selector::{Selector, select};
use crate::html::dom::{DomNode, well_linked};
use crate::css::selector_syntax::{SelectorModel, selectors_view};
use crate::css::token::CssToken;
use crate::css::tokenization::CssTokenModel;
use crate::text::str_eq;

verus! {

/// https://www.w3.org/TR/cssom-1/#cssstylesheet
#[derive(Debug)]
pub struct StyleSheet {
    pub rules: Vec<Rule>,
}

/// The selectors of `sels` that match node `x` of `t`, as mathematical values, in order.
pub open spec fn matched_selectors(t: Seq<DomNode>, sels: Seq<Selector>, x: int) -> Seq<SelectorModel>
    decreases sels.len(),
{
    if sels.len() == 0 {
        Seq::empty()
    } else {
        let rest = matched_selectors(t, sels.drop_last(), x);
        if select(t, sels.last(), x) != Some(None::<usize>) {
            rest.push(crate::css::selector_syntax::selector_view(sels.last()))
        } else {
            rest
        }
    }
}

/// Filtering by selectors: where no selector of `sels` matches node `x`, none is kept;
/// where every one of them matches, all are kept, in order.
pub proof fn lemma_matched_selectors(t: Seq<DomNode>, sels: Seq<Selector>, x: int)
    ensures
        (forall|k: int| 0 <= k < sels.len() ==> #[trigger] select(t, sels[k], x) == Some(None::<usize>))
            ==> matched_selectors(t, sels, x) == Seq::<SelectorModel>::empty(),
        (forall|k: int| 0 <= k < sels.len() ==> #[trigger] select(t, sels[k], x) matches Some(Some(_)))
            ==> matched_selectors(t, sels, x) == selectors_view(sels),
    decreases sels.len(),
{
    if sels.len() > 0 {
        let init = sels.drop_last();
        lemma_matched_selectors(t, init, x);
        if forall|k: int| 0 <= k < sels.len() ==> #[trigger] select(t, sels[k], x) == Some(None::<usize>) {
            assert forall|k: int| 0 <= k < init.len() implies #[trigger] select(t, init[k], x) == Some(None::<usize>) by {
                assert(init[k] == sels[k]);
            }
            assert(select(t, sels[sels.len() - 1], x) == Some(None::<usize>));
        }
        if forall|k: int| 0 <= k < sels.len() ==> #[trigger] select(t, sels[k], x) matches Some(Some(_)) {
            assert forall|k: int| 0 <= k < init.len() implies #[trigger] select(t, init[k], x) matches Some(Some(_)) by {
                assert(init[k] == sels[k]);
            }
            assert(select(t, sels[sels.len() - 1], x) matches Some(Some(_)));
            assert(selectors_view(sels) =~= selectors_view(init).push(crate::css::selector_syntax::selector_view(sels.last())));
        }
    }
}

/// Every selector of `sels` can be matched against node `x` of `t`.
pub open spec fn all_selectable(t: Seq<DomNode>, sels: Seq<Selector>, x: int) -> bool {
    forall|k: int| 0 <= k < sels.len() ==> (#[trigger] select(t, sels[k], x)) is Some
}

impl StyleSheet {
    pub fn new(rules: Vec<Rule>) -> (s: Self)
        ensures
            s.rules@ == rules@,
    {
        Self { rules }
    }
}

/// A CSS document is a series of style rules and at-rules.
/// - https://www.w3.org/TR/css-syntax-3/#syntax-description
/// - https://www.w3.org/TR/cssom-1/#cssrule
#[derive(Debug, PartialEq)]
pub enum Rule {
    QualifiedRule(QualifiedRule),
    AtRule(AtRule),
}

/// https://www.w3.org/TR/css-syntax-3/#qualified-rule
pub type QualifiedRule = StyleRule;

/// - https://www.w3.org/TR/css-syntax-3/#style-rules
/// - https://www.w3.org/TR/cssom-1/#the-cssstylerule-interface
#[derive(Debug, PartialEq)]
pub struct StyleRule {
    pub selectors: Vec<Selector>,
    pub declarations: Vec<Declaration>,
}

/// - https://www.w3.org/TR/css-syntax-3/#declaration
/// - https://www.w3.org/TR/cssom-1/#css-declarations
#[derive(Debug, PartialEq)]
pub struct Declaration {
    pub name: String,
    pub value: Vec<ComponentValue>,
}

/// https://www.w3.org/TR/css-syntax-3/#at-rules
#[derive(Debug, PartialEq)]
pub struct AtRule {
    pub name: String,
    pub prelude: Vec<ComponentValue>,
    pub block: Option<Box<Rule>>,
}

impl Rule {
    /// The selectors of a style rule that match the node; `None` where none matches
    /// and for an at-rule.
    pub fn get_matched_selectors(&self, nodes: &Vec<DomNode>, node: usize) -> (r: Option<Vec<Selector>>)
        requires
            well_linked(nodes@),
            node < nodes@.len(),
            self matches Rule::QualifiedRule(q) ==> all_selectable(nodes@, q.selectors@, node as int),
        ensures
            match self {
                Rule::QualifiedRule(q) => match r {
                    Some(v) => selectors_view(v@) == matched_selectors(nodes@, q.selectors@, node as int)
                        && v@.len() > 0,
                    None => matched_selectors(nodes@, q.selectors@, node as int).len() == 0,
                },
                Rule::AtRule(_) => r is None,
            },
    {
        match self {
            Rule::QualifiedRule(rule) => rule.get_matched_selectors(nodes, node),
            Rule::AtRule(_) => None,
        }
    }
}

impl StyleRule {
    /// The selectors of the rule that match the node (a rule may list several,
    /// separated by commas), in order; `None` where none matches.
    pub fn get_matched_selectors(&self, nodes: &Vec<DomNode>, node: usize) -> (r: Option<Vec<Selector>>)
        requires
            well_linked(nodes@),
            node < nodes@.len(),
            all_selectable(nodes@, self.selectors@, node as int),
        ensures
            match r {
                Some(v) => selectors_view(v@) == matched_selectors(nodes@, self.selectors@, node as int)
                    && v@.len() > 0,
                None => matched_selectors(nodes@, self.selectors@, node as int).len() == 0,
            },
    {
        let ghost t = nodes@;
        let ghost sels = self.selectors@;
        let mut out: Vec<Selector> = Vec::new();
        let mut k: usize = 0;
        while k < self.selectors.len()
            invariant
                k <= sels.len(),
                sels == self.selectors@,
                t == nodes@,
                well_linked(t),
                node < t.len(),
                all_selectable(t, sels, node as int),
                selectors_view(out@) == matched_selectors(t, sels.take(k as int), node as int),
                out@.len() == selectors_view(out@).len(),
            decreases self.selectors.len() - k,
        {
            assert(sels.take(k + 1).drop_last() =~= sels.take(k as int));
            assert(sels.take(k + 1).last() == sels[k as int]);
            assert(select(t, sels[k as int], node as int) is Some);
            if self.selectors[k].matches(nodes, node) {
                let c = self.selectors[k].copy();
                let ghost before = out@;
                out.push(c);
                assert(selectors_view(out@) =~= selectors_view(before).push(
                    crate::css::selector_syntax::selector_view(c),
                ));
            }
            k = k + 1;
        }
        assert(sels.take(sels.len() as int) =~= sels);
        if out.len() > 0 {
            Some(out)
        } else {
            None
        }
    }
}

/// A declaration as a mathematical value.
pub struct DeclarationModel {
    pub name: Seq<char>,
    pub value: Seq<ComponentValueModel>,
}

/// A rule as a mathematical value.
pub enum RuleModel {
    QualifiedRule { selectors: Seq<SelectorModel>, declarations: Seq<DeclarationModel> },
    AtRule { name: Seq<char>, prelude: Seq<ComponentValueModel>, block: Option<Box<RuleModel>> },
}

/// The mathematical value of a declaration.
pub open spec fn declaration_view(d: Declaration) -> DeclarationModel {
    DeclarationModel { name: d.name@, value: cvs_view(d.value@) }
}

/// The mathematical values of a list of declarations.
pub open spec fn declarations_view(l: Seq<Declaration>) -> Seq<DeclarationModel> {
    l.map_values(|d: Declaration| declaration_view(d))
}

/// The mathematical value of a rule.
pub open spec fn rule_view(r: Rule) -> RuleModel
    decreases r,
{
    match r {
        Rule::QualifiedRule(q) => RuleModel::QualifiedRule {
            selectors: selectors_view(q.selectors@),
            declarations: declarations_view(q.declarations@),
        },
        Rule::AtRule(a) => RuleModel::AtRule {
            name: a.name@,
            prelude: cvs_view(a.prelude@),
            block: match a.block {
                Some(b) => Some(Box::new(rule_view(*b))),
                None => None,
            },
        },
    }
}

/// The mathematical values of a list of rules.
pub open spec fn rules_view(l: Seq<Rule>) -> Seq<RuleModel> {
    l.map_values(|r: Rule| rule_view(r))
}

/// https://www.w3.org/TR/css-syntax-3/#component-value
#[derive(Debug, PartialEq)]
pub enum ComponentValue {
    PreservedToken(CssToken),
    Function { name: String, values: Vec<ComponentValue> },
    SimpleBlock { associated_token: CssToken, values: Vec<ComponentValue> },
}

/// A component value as a mathematical value.
pub enum ComponentValueModel {
    PreservedToken(CssTokenModel),
    Function { name: Seq<char>, values: Seq<ComponentValueModel> },
    SimpleBlock { associated_token: CssTokenModel, values: Seq<ComponentValueModel> },
}

/// The mathematical value of a component value.
pub open spec fn cv_view(c: ComponentValue) -> ComponentValueModel
    decreases c, 1int,
{
    match c {
        ComponentValue::PreservedToken(t) => ComponentValueModel::PreservedToken(t@),
        ComponentValue::Function { name, values } => ComponentValueModel::Function {
            name: name@,
            values: cvs_view(values@),
        },
        ComponentValue::SimpleBlock { associated_token, values } => ComponentValueModel::SimpleBlock {
            associated_token: associated_token@,
            values: cvs_view(values@),
        },
    }
}

/// The mathematical values of a list of component values.
pub open spec fn cvs_view(vs: Seq<ComponentValue>) -> Seq<ComponentValueModel>
    decreases vs, 0int,
{
    if vs.len() == 0 {
        Seq::empty()
    } else {
        seq![cv_view(vs[0])] + cvs_view(vs.drop_first())
    }
}


/// The mathematical values of a list of component values are those of its entries, in order.
pub broadcast proof fn lemma_cvs_view(vs: Seq<ComponentValue>)
    ensures
        #[trigger] cvs_view(vs).len() == vs.len(),
        forall|i: int| 0 <= i < vs.len() ==> #[trigger] cvs_view(vs)[i] == cv_view(vs[i]),
    decreases vs.len(),
{
    if vs.len() > 0 {
        lemma_cvs_view(vs.drop_first());
        assert forall|i: int| 0 <= i < vs.len() implies #[trigger] cvs_view(vs)[i] == cv_view(vs[i]) by {
            if i > 0 {
                assert(vs.drop_first()[i - 1] == vs[i]);
            }
        }
    }
}
/// The name of an ident token.
pub open spec fn ident_of(c: ComponentValueModel) -> Option<Seq<char>> {
    match c {
        ComponentValueModel::PreservedToken(CssTokenModel::Ident(s)) => Some(s),
        _ => None,
    }
}

/// A whitespace token.
pub open spec fn is_whitespace(c: ComponentValueModel) -> bool {
    c == ComponentValueModel::PreservedToken(CssTokenModel::Whitespace)
}

/// Whether `c` is an ident token named `name`.
pub fn is_ident_named(c: &ComponentValue, name: &str) -> (r: bool)
    ensures
        r == (ident_of(cv_view(*c)) == Some(name@)),
{
    match c {
        ComponentValue::PreservedToken(CssToken::Ident(s)) => str_eq(s.as_str(), name),
        _ => false,
    }
}

/// Whether `c` is a whitespace token.
pub fn is_whitespace_value(c: &ComponentValue) -> (r: bool)
    ensures
        r == is_whitespace(cv_view(*c)),
{
    match c {
        ComponentValue::PreservedToken(CssToken::Whitespace) => true,
        _ => false,
    }
}

/// A copy of the component values `vs`.
pub fn copy_values(vs: &[ComponentValue]) -> (r: Vec<ComponentValue>)
    ensures
        cvs_view(r@) == cvs_view(vs@),
    decreases vs@, 0int,
{
    let mut out: Vec<ComponentValue> = Vec::new();
    let mut k: usize = 0;
    while k < vs.len()
        invariant
            k <= vs@.len(),
            cvs_view(out@) == cvs_view(vs@.take(k as int)),
        decreases vs.len() - k,
    {
        proof {
            lemma_cvs_view(out@);
            lemma_cvs_view(vs@);
        }
        let c = vs[k].copy();
        let ghost before = out@;
        out.push(c);
        proof {
            lemma_cvs_view(out@);
            lemma_cvs_view(before);
            lemma_cvs_view(vs@.take(k + 1));
            lemma_cvs_view(vs@.take(k as int));
            assert forall|j: int| 0 <= j < out@.len() implies #[trigger] cvs_view(out@)[j] == cvs_view(
                vs@.take(k + 1),
            )[j] by {
                if j < k {
                    assert(out@[j] == before[j]);
                    assert(cvs_view(before)[j] == cvs_view(vs@.take(k as int))[j]);
                    assert(vs@.take(k as int)[j] == vs@.take(k + 1)[j]);
                }
            }
            assert(cvs_view(out@) =~= cvs_view(vs@.take(k + 1)));
        }
        k = k + 1;
    }
    assert(vs@.take(vs@.len() as int) =~= vs@);
    out
}

impl ComponentValue {
    /// A copy of the component value.
    pub fn copy(&self) -> (r: ComponentValue)
        ensures
            cv_view(r) == cv_view(*self),
        decreases *self, 1int,
    {
        match self {
            ComponentValue::PreservedToken(t) => ComponentValue::PreservedToken(crate::css::parser::copy_token(t)),
            ComponentValue::Function { name, values } => ComponentValue::Function {
                name: crate::text::string_of(name.as_str()),
                values: copy_values(values),
            },
            ComponentValue::SimpleBlock { associated_token, values } => ComponentValue::SimpleBlock {
                associated_token: crate::css::parser::copy_token(associated_token),
                values: copy_values(values),
            },
        }
    }
}

impl Declaration {
    /// A copy of the declaration.
    pub fn copy(&self) -> (r: Declaration)
        ensures
            declaration_view(r) == declaration_view(*self),
    {
        Declaration { name: crate::text::string_of(self.name.as_str()), value: copy_values(&self.value) }
    }
}

} // verus!
