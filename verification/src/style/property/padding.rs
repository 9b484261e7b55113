//! The `padding` property: https://developer.mozilla.org/en-US/docs/Web/CSS/padding
use vstd::prelude::*;

use crate::css::cssom::{ComponentValue, cvs_view, lemma_cvs_view};
use crate::css::dtype::{AbsoluteLengthUnit, CssValue, CssValueModel, LengthUnit};
use crate::css::token::NumericType;
use crate::error::Error;
use crate::style::property::sides::{SideSyntax, parse_spaced, sides, sides_of, spaced_values};
use crate::text::string_of;

verus! {

broadcast use lemma_cvs_view;

/// `0px`.
fn zero_px() -> (v: CssValue)
    ensures
        v@ == CssValueModel::Length(crate::css::tokenization::NumberModel::Integer(0), LengthUnit::AbsoluteLengthUnit(AbsoluteLengthUnit::Px)),
{
    CssValue::Length(NumericType::Integer(0), LengthUnit::AbsoluteLengthUnit(AbsoluteLengthUnit::Px))
}

/// The mathematical value of `0px`.
pub open spec fn zero_px_view() -> CssValueModel {
    CssValueModel::Length(crate::css::tokenization::NumberModel::Integer(0), LengthUnit::AbsoluteLengthUnit(AbsoluteLengthUnit::Px))
}

/// https://developer.mozilla.org/en-US/docs/Web/CSS/padding
#[derive(Clone, Debug, PartialEq)]
pub struct PaddingProp {
    pub top: CssValue,
    pub right: CssValue,
    pub bottom: CssValue,
    pub left: CssValue,
}

impl Default for PaddingProp {
    /// `0px` on every side.
    fn default() -> (p: Self)
        ensures
            p.top@ == zero_px_view(),
            p.right@ == zero_px_view(),
            p.bottom@ == zero_px_view(),
            p.left@ == zero_px_view(),
    {
        Self { top: zero_px(), right: zero_px(), bottom: zero_px(), left: zero_px() }
    }
}

impl PaddingProp {
    /// Parses one to four values separated by whitespace: top, right, bottom and left,
    /// a missing side taking the value of its opposite (and of top, for right).
    pub fn parse(values: &[ComponentValue]) -> (r: Result<Self, Error>)
        requires
            spaced_values(cvs_view(values@), 0, SideSyntax::Padding) is Some,
        ensures
            match spaced_values(cvs_view(values@), 0, SideSyntax::Padding) {
                Some(Ok(l)) => match sides(l) {
                    Some((t, rt, b, lf)) => r matches Ok(p) && p.top@ == t && p.right@ == rt && p.bottom@ == b
                        && p.left@ == lf,
                    None => r matches Err(Error::CssParse(_)),
                },
                Some(Err(())) => r matches Err(Error::CssParse(_)),
                None => false,
            },
    {
        let l = parse_spaced(values, SideSyntax::Padding)?;
        match sides_of(&l) {
            Some((top, right, bottom, left)) => Ok(Self { top, right, bottom, left }),
            None => Err(Error::CssParse(string_of("Invalid padding declaration"))),
        }
    }
}

/// Parses the value of `padding`: the same reading as `PaddingProp::parse`.
pub fn parse_padding(values: &[ComponentValue]) -> (r: Result<PaddingProp, Error>)
    requires
        spaced_values(cvs_view(values@), 0, SideSyntax::Padding) is Some,
    ensures
        match spaced_values(cvs_view(values@), 0, SideSyntax::Padding) {
            Some(Ok(l)) => match sides(l) {
                Some((t, rt, b, lf)) => r matches Ok(p) && p.top@ == t && p.right@ == rt && p.bottom@ == b
                    && p.left@ == lf,
                None => r matches Err(Error::CssParse(_)),
            },
            Some(Err(())) => r matches Err(Error::CssParse(_)),
            None => false,
        },
{
    PaddingProp::parse(values)
}

} // verus!
