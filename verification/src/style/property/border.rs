//! The `border` shorthand: https://developer.mozilla.org/en-US/docs/Web/CSS/border
use vstd::prelude::*;

use crate::css::cssom::ComponentValue;
use crate::css::dtype::{CssValue, CssValueModel};
use crate::error::Error;
use crate::style::property::color::ColorProp;
use crate::text::string_of;

verus! {

/// The four sides of `border-style`.
#[derive(Clone, Debug, PartialEq)]
pub struct BorderStyleProp {
    pub top: CssValue,
    pub right: CssValue,
    pub bottom: CssValue,
    pub left: CssValue,
}

/// The four sides of `border-width`.
#[derive(Clone, Debug, PartialEq)]
pub struct BorderWidthProp {
    pub top: CssValue,
    pub right: CssValue,
    pub bottom: CssValue,
    pub left: CssValue,
}

/// https://developer.mozilla.org/en-US/docs/Web/CSS/border
#[derive(Clone, Debug, PartialEq)]
pub struct BorderProp {
    pub border_color: ColorProp,
    pub border_style: BorderStyleProp,
    pub border_width: BorderWidthProp,
}

/// The keyword `w` as a value.
fn keyword(w: &str) -> (v: CssValue)
    ensures
        v@ == CssValueModel::Ident(w@),
{
    CssValue::Ident(string_of(w))
}

impl Default for BorderStyleProp {
    /// `none` on every side.
    fn default() -> (p: Self)
        ensures
            p.top@ == CssValueModel::Ident("none"@),
            p.right@ == CssValueModel::Ident("none"@),
            p.bottom@ == CssValueModel::Ident("none"@),
            p.left@ == CssValueModel::Ident("none"@),
    {
        Self { top: keyword("none"), right: keyword("none"), bottom: keyword("none"), left: keyword("none") }
    }
}

impl Default for BorderWidthProp {
    /// `medium` on every side.
    fn default() -> (p: Self)
        ensures
            p.top@ == CssValueModel::Ident("medium"@),
            p.right@ == CssValueModel::Ident("medium"@),
            p.bottom@ == CssValueModel::Ident("medium"@),
            p.left@ == CssValueModel::Ident("medium"@),
    {
        Self { top: keyword("medium"), right: keyword("medium"), bottom: keyword("medium"), left: keyword("medium") }
    }
}

/// A border in the current colour, with no style, of medium width.
pub open spec fn default_border(p: BorderProp) -> bool {
    &&& p.border_color.value@ == CssValueModel::Ident("currentColor"@)
    &&& p.border_style.top@ == CssValueModel::Ident("none"@)
    &&& p.border_style.right@ == CssValueModel::Ident("none"@)
    &&& p.border_style.bottom@ == CssValueModel::Ident("none"@)
    &&& p.border_style.left@ == CssValueModel::Ident("none"@)
    &&& p.border_width.top@ == CssValueModel::Ident("medium"@)
    &&& p.border_width.right@ == CssValueModel::Ident("medium"@)
    &&& p.border_width.bottom@ == CssValueModel::Ident("medium"@)
    &&& p.border_width.left@ == CssValueModel::Ident("medium"@)
}

impl Default for BorderProp {
    /// See `default_border`.
    fn default() -> (p: Self)
        ensures
            default_border(p),
    {
        Self {
            border_color: ColorProp { value: keyword("currentColor") },
            border_style: BorderStyleProp::default(),
            border_width: BorderWidthProp::default(),
        }
    }
}

impl BorderProp {
    /// Parses the `border` shorthand. Its values are not read yet: every border is the
    /// default one (see `default_border`).
    #[allow(unused_variables)]
    pub fn parse(values: &[ComponentValue]) -> (r: Result<Self, Error>)
        ensures
            r matches Ok(p) && default_border(p),
    {
        Ok(Self::default())
    }
}

} // verus!
