//! The `border-radius` property: https://developer.mozilla.org/en-US/docs/Web/CSS/border-radius
use vstd::prelude::*;

use crate::css::cssom::{ComponentValue, cvs_view, lemma_cvs_view};
use crate::css::dtype::{AbsoluteLengthUnit, CssValue, CssValueModel, LengthUnit};
use crate::css::token::NumericType;
use crate::error::Error;
use crate::style::property::sides::{SideSyntax, parse_spaced, sides, sides_of, spaced_values};
use crate::text::string_of;

verus! {

broadcast use lemma_cvs_view;

/// `0px`.
fn zero_px() -> (v: CssValue)
    ensures
        v@ == CssValueModel::Length(crate::css::tokenization::NumberModel::Integer(0), LengthUnit::AbsoluteLengthUnit(AbsoluteLengthUnit::Px)),
{
    CssValue::Length(NumericType::Integer(0), LengthUnit::AbsoluteLengthUnit(AbsoluteLengthUnit::Px))
}

/// The mathematical value of `0px`.
pub open spec fn zero_px_view() -> CssValueModel {
    CssValueModel::Length(crate::css::tokenization::NumberModel::Integer(0), LengthUnit::AbsoluteLengthUnit(AbsoluteLengthUnit::Px))
}

/// https://developer.mozilla.org/en-US/docs/Web/CSS/border-radius
#[derive(Clone, Debug, PartialEq)]
pub struct BorderRadiusProp {
    pub top_left: CssValue,
    pub top_right: CssValue,
    pub bottom_right: CssValue,
    pub bottom_left: CssValue,
}

impl Default for BorderRadiusProp {
    /// `0px` at every corner.
    fn default() -> (p: Self)
        ensures
            p.top_left@ == zero_px_view(),
            p.top_right@ == zero_px_view(),
            p.bottom_right@ == zero_px_view(),
            p.bottom_left@ == zero_px_view(),
    {
        Self { top_left: zero_px(), top_right: zero_px(), bottom_right: zero_px(), bottom_left: zero_px() }
    }
}

impl BorderRadiusProp {
    /// Parses one to four radii separated by whitespace: top left, top right, bottom right
    /// and bottom left, a missing corner taking the value of its opposite (and of top
    /// left, for top right).
    pub fn parse(values: &[ComponentValue]) -> (r: Result<Self, Error>)
        requires
            spaced_values(cvs_view(values@), 0, SideSyntax::Radius) is Some,
        ensures
            match spaced_values(cvs_view(values@), 0, SideSyntax::Radius) {
                Some(Ok(l)) => match sides(l) {
                    Some((t, rt, b, lf)) => r matches Ok(p) && p.top_left@ == t && p.top_right@ == rt
                        && p.bottom_right@ == b && p.bottom_left@ == lf,
                    None => r matches Err(Error::CssParse(_)),
                },
                Some(Err(())) => r matches Err(Error::CssParse(_)),
                None => false,
            },
    {
        let l = parse_spaced(values, SideSyntax::Radius)?;
        match sides_of(&l) {
            Some((top_left, top_right, bottom_right, bottom_left)) => Ok(
                Self { top_left, top_right, bottom_right, bottom_left },
            ),
            None => Err(Error::CssParse(string_of("Invalid border-radius value"))),
        }
    }
}

} // verus!
