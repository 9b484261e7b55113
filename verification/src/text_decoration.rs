//! The `text-decoration` shorthand: colour, line and style of a decoration.
use vstd::prelude::*;

use crate::color::Color;
use crate::css::cssom::{ComponentValue, cvs_view, ident_of, lemma_cvs_view};
use crate::error::Error;

verus! {

broadcast use lemma_cvs_view;

#[derive(Clone, Copy, Debug, PartialEq, Eq, Structural)]
pub struct TextDecoration {
    pub color: Color,
    pub line: TextDecorationLine,
    pub style: TextDecorationStyle,
}

#[derive(Clone, Copy, Debug, PartialEq, Eq, Structural)]
pub enum TextDecorationLine {
    /// `text-decoration-line: none`: no line is drawn.
    NoLine,
    Underline,
}

#[derive(Clone, Copy, Debug, PartialEq, Eq, Structural)]
pub enum TextDecorationStyle {
    Solid,
}

impl Default for TextDecoration {
    /// No line, solid, in the default colour.
    fn default() -> (d: Self)
        ensures
            d.color == (Color { r: 0, g: 0, b: 0, a: 255 }),
            d.line == TextDecorationLine::NoLine,
            d.style == TextDecorationStyle::Solid,
    {
        TextDecoration {
            color: Color::default(),
            line: TextDecorationLine::NoLine,
            style: TextDecorationStyle::Solid,
        }
    }
}

impl TextDecoration {
    pub fn new(color: Color, line: TextDecorationLine, style: TextDecorationStyle) -> (d: Self)
        ensures
            d == (TextDecoration { color, line, style }),
    {
        Self { color, line, style }
    }

    /// Parses `text-decoration`; the one value supported is `underline`, drawn solid in
    /// the current colour.
    pub fn parse(values: &[ComponentValue], current_color: &Color) -> (r: Result<Self, Error>)
        requires
            values@.len() == 1,
            ident_of(cvs_view(values@)[0]) == Some("underline"@),
        ensures
            r == Ok::<TextDecoration, Error>(
                TextDecoration { color: *current_color, line: TextDecorationLine::Underline, style: TextDecorationStyle::Solid },
            ),
    {
        Ok(Self::new(*current_color, TextDecorationLine::Underline, TextDecorationStyle::Solid))
    }
}

} // verus!
