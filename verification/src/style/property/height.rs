//! The `height` property: https://developer.mozilla.org/en-US/docs/Web/CSS/height
use vstd::prelude::*;

use crate::css::cssom::{ComponentValue, ComponentValueModel, cvs_view, ident_of, is_ident_named, lemma_cvs_view};
use crate::css::dtype::{CssValue, CssValueModel, ValueRead, length_percentage_at, parse_length_percentage_type};
use crate::css::tokenization::CssTokenModel;
use crate::error::Error;
use crate::style::property::sides::is_ident_value;
use crate::text::string_of;

verus! {

broadcast use lemma_cvs_view;

/// https://developer.mozilla.org/en-US/docs/Web/CSS/height
#[derive(Clone, Debug, PartialEq)]
pub struct HeightProp {
    pub size: CssValue,
}

impl Default for HeightProp {
    /// `auto`.
    fn default() -> (p: Self)
        ensures
            p.size@ == CssValueModel::Ident("auto"@),
    {
        Self { size: CssValue::Ident(string_of("auto")) }
    }
}

/// The value of `height` written as `vs`: `auto` (another keyword panics), else a
/// `<length-percentage>`.
pub open spec fn height_of(vs: Seq<ComponentValueModel>) -> ValueRead {
    if vs.len() > 0 && ident_of(vs[0]) is Some {
        if ident_of(vs[0]) == Some("auto"@) {
            Some(Ok(CssValueModel::Ident("auto"@)))
        } else {
            None
        }
    } else {
        length_percentage_at(vs, 0)
    }
}

impl HeightProp {
    /// Parses the value of `height`.
    pub fn parse(values: &[ComponentValue]) -> (r: Result<Self, Error>)
        requires
            height_of(cvs_view(values@)) is Some,
        ensures
            match height_of(cvs_view(values@)) {
                Some(Ok(v)) => r matches Ok(p) && p.size@ == v,
                Some(Err(())) => r matches Err(Error::CssParse(_)),
                None => false,
            },
    {
        proof {
            lemma_cvs_view(values@);
        }
        if values.len() > 0 && is_ident_value(&values[0]) {
            if is_ident_named(&values[0], "auto") {
                return Ok(Self { size: CssValue::Ident(string_of("auto")) });
            }
            return Err(Error::CssParse(string_of("Expected auto")));
        }
        Ok(Self { size: parse_length_percentage_type(values, 0)? })
    }
}


/// How a value of `height` reads: the keyword `auto` as itself, another keyword not
/// at all (the parser panics on it), and a dimension, number or percentage as a
/// `<length-percentage>`.
pub proof fn lemma_height_values(vs: Seq<ComponentValueModel>, w: Seq<char>)
    requires
        vs.len() > 0,
    ensures
        vs[0] == ComponentValueModel::PreservedToken(CssTokenModel::Ident("auto"@)) ==> height_of(vs) == Some(
            Ok::<CssValueModel, ()>(CssValueModel::Ident("auto"@)),
        ),
        (vs[0] == ComponentValueModel::PreservedToken(CssTokenModel::Ident(w)) && w != "auto"@) ==> height_of(vs) is None,
        (vs[0] matches ComponentValueModel::PreservedToken(t) && (t is Dimension || t is Number || t is Percentage))
            ==> height_of(vs) == length_percentage_at(vs, 0),
{
}
} // verus!
