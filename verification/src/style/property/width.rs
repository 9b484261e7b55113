//! The `width` property: https://developer.mozilla.org/en-US/docs/Web/CSS/width
use vstd::prelude::*;

use crate::css::cssom::{ComponentValue, ComponentValueModel, cvs_view, ident_of, is_ident_named, lemma_cvs_view};
use crate::css::dtype::{CssValue, CssValueModel, ValueRead, length_percentage_at, parse_length_percentage_type};
use crate::css::tokenization::CssTokenModel;
use crate::error::Error;
use crate::style::property::sides::is_ident_value;
use crate::text::string_of;

verus! {

broadcast use lemma_cvs_view;

/// https://developer.mozilla.org/en-US/docs/Web/CSS/width
#[derive(Clone, Debug, PartialEq)]
pub struct WidthProp {
    pub size: CssValue,
}

impl Default for WidthProp {
    /// `auto`.
    fn default() -> (p: Self)
        ensures
            p.size@ == CssValueModel::Ident("auto"@),
    {
        Self { size: CssValue::Ident(string_of("auto")) }
    }
}

/// The value of `width` written as `vs`: `auto` (another keyword panics), else a
/// `<length-percentage>`.
pub open spec fn width_of(vs: Seq<ComponentValueModel>) -> ValueRead {
    if vs.len() > 0 && ident_of(vs[0]) is Some {
        if ident_of(vs[0]) == Some("auto"@) {
            Some(Ok(CssValueModel::Ident("auto"@)))
        } else {
            None
        }
    } else {
        length_percentage_at(vs, 0)
    }
}

impl WidthProp {
    /// Parses the value of `width`.
    pub fn parse(values: &[ComponentValue]) -> (r: Result<Self, Error>)
        requires
            width_of(cvs_view(values@)) is Some,
        ensures
            match width_of(cvs_view(values@)) {
                Some(Ok(v)) => r matches Ok(p) && p.size@ == v,
                Some(Err(())) => r matches Err(Error::CssParse(_)),
                None => false,
            },
    {
        proof {
            lemma_cvs_view(values@);
        }
        if values.len() > 0 && is_ident_value(&values[0]) {
            if is_ident_named(&values[0], "auto") {
                return Ok(Self { size: CssValue::Ident(string_of("auto")) });
            }
            return Err(Error::CssParse(string_of("Expected auto")));
        }
        Ok(Self { size: parse_length_percentage_type(values, 0)? })
    }
}

/// Parses the value of `width`: the same reading as `WidthProp::parse`.
pub fn parse_width(values: &[ComponentValue]) -> (r: Result<WidthProp, Error>)
    requires
        width_of(cvs_view(values@)) is Some,
    ensures
        match width_of(cvs_view(values@)) {
            Some(Ok(v)) => r matches Ok(p) && p.size@ == v,
            Some(Err(())) => r matches Err(Error::CssParse(_)),
            None => false,
        },
{
    WidthProp::parse(values)
}


/// How a value of `width` reads: the keyword `auto` as itself, another keyword not
/// at all (the parser panics on it), and a dimension, number or percentage as a
/// `<length-percentage>`.
pub proof fn lemma_width_values(vs: Seq<ComponentValueModel>, w: Seq<char>)
    requires
        vs.len() > 0,
    ensures
        vs[0] == ComponentValueModel::PreservedToken(CssTokenModel::Ident("auto"@)) ==> width_of(vs) == Some(
            Ok::<CssValueModel, ()>(CssValueModel::Ident("auto"@)),
        ),
        (vs[0] == ComponentValueModel::PreservedToken(CssTokenModel::Ident(w)) && w != "auto"@) ==> width_of(vs) is None,
        (vs[0] matches ComponentValueModel::PreservedToken(t) && (t is Dimension || t is Number || t is Percentage))
            ==> width_of(vs) == length_percentage_at(vs, 0),
{
}
} // verus!
