//! The `color` property: colour keywords and hexadecimal colours.
use vstd::prelude::*;

use vstd::string::StringSliceAdditionalSpecFns;
use vstd::utf8::is_char_boundary;

use crate::color::{named_rgb, radix16, from_radix16, rgb_name};
use crate::css::cssom::{ComponentValue, ComponentValueModel, cvs_view, lemma_cvs_view};
use crate::css::parser::copy_number;
use crate::css::token::{CssToken, NumericType};
use crate::css::tokenization::{CssTokenModel, NumberModel};
use crate::error::Error;
use crate::style::property::text_decoration::{skip_spaces, skip_whitespace};
use crate::text::{ascii_lower, ascii_lowercase_of, string_of};

verus! {

/// The value of the `color` property.
#[derive(Clone, Debug, PartialEq)]
pub struct ColorProp {
    pub value: crate::css::dtype::CssValue,
}

broadcast use vstd::string::group_string_axioms;

/// The red, green and blue components of a colour keyword, compared up to ASCII case.
pub fn name_to_rgb(name: &str) -> (r: Option<(u8, u8, u8)>)
    ensures
        r == named_rgb(name@.map_values(|c: char| ascii_lower(c))),
{
    let lower = ascii_lowercase_of(name);
    match crate::color::Color::parse_named_color(lower.as_str()) {
        Ok(c) => Some((c.r, c.g, c.b)),
        Err(_) => None,
    }
}

/// The keyword of the colour `(r, g, b)`, if it has one.
pub fn rgb_to_name(r: u8, g: u8, b: u8) -> (name: Option<String>)
    ensures
        match name {
            Some(n) => rgb_name(r, g, b) == Some(n@),
            None => rgb_name(r, g, b) is None,
        },
{
    if r == 0 && g == 0 && b == 0 {
        Some(string_of("black"))
    } else if r == 128 && g == 128 && b == 128 {
        Some(string_of("gray"))
    } else if r == 255 && g == 255 && b == 255 {
        Some(string_of("white"))
    } else if r == 255 && g == 0 && b == 0 {
        Some(string_of("red"))
    } else if r == 128 && g == 0 && b == 128 {
        Some(string_of("purple"))
    } else if r == 138 && g == 43 && b == 226 {
        Some(string_of("blueviolet"))
    } else if r == 0 && g == 128 && b == 0 {
        Some(string_of("green"))
    } else if r == 154 && g == 205 && b == 50 {
        Some(string_of("yellowgreen"))
    } else if r == 255 && g == 255 && b == 0 {
        Some(string_of("yellow"))
    } else if r == 0 && g == 0 && b == 255 {
        Some(string_of("blue"))
    } else if r == 0 && g == 255 && b == 255 {
        Some(string_of("aqua"))
    } else if r == 255 && g == 165 && b == 0 {
        Some(string_of("orange"))
    } else if r == 165 && g == 42 && b == 42 {
        Some(string_of("brown"))
    } else {
        None
    }
}

/// The components of a hexadecimal colour of the form `rrggbb` or `rrggbbaa`.
pub open spec fn hex_rgba(s: Seq<u8>) -> Option<(u8, u8, u8, u8)> {
    if s.len() == 6 {
        match (radix16(s[0], s[1]), radix16(s[2], s[3]), radix16(s[4], s[5])) {
            (Some(r), Some(g), Some(b)) => Some((r, g, b, 255u8)),
            _ => None,
        }
    } else if s.len() == 8 {
        match (radix16(s[0], s[1]), radix16(s[2], s[3]), radix16(s[4], s[5]), radix16(s[6], s[7])) {
            (Some(r), Some(g), Some(b), Some(a)) => Some((r, g, b, a)),
            _ => None,
        }
    } else {
        None
    }
}

/// The red, green, blue and alpha components of a hexadecimal colour `rrggbb` or `rrggbbaa`.
pub fn hex_to_rgba(hex: &str) -> (res: Result<(u8, u8, u8, u8), Error>)
    requires
        (hex.spec_bytes().len() == 6 || hex.spec_bytes().len() == 8) ==> (is_char_boundary(
            hex.spec_bytes(),
            2,
        ) && is_char_boundary(hex.spec_bytes(), 4) && is_char_boundary(hex.spec_bytes(), 6)),
    ensures
        match hex_rgba(hex.spec_bytes()) {
            Some(v) => res == Ok::<(u8, u8, u8, u8), Error>(v),
            None => res == Err::<(u8, u8, u8, u8), Error>(Error::InvalidHexColor),
        },
{
    let s = hex.as_bytes();
    let n = hex.len();
    if n == 6 {
        match (from_radix16(s[0], s[1]), from_radix16(s[2], s[3]), from_radix16(s[4], s[5])) {
            (Some(r), Some(g), Some(b)) => Ok((r, g, b, 255)),
            _ => Err(Error::InvalidHexColor),
        }
    } else if n == 8 {
        match (from_radix16(s[0], s[1]), from_radix16(s[2], s[3]), from_radix16(s[4], s[5]), from_radix16(s[6], s[7])) {
            (Some(r), Some(g), Some(b), Some(a)) => Ok((r, g, b, a)),
            _ => Err(Error::InvalidHexColor),
        }
    } else {
        Err(Error::InvalidHexColor)
    }
}


/// The number at `i`, if a number token stands there.
pub open spec fn number_at(vs: Seq<ComponentValueModel>, i: int) -> Option<NumberModel> {
    if 0 <= i < vs.len() {
        match vs[i] {
            ComponentValueModel::PreservedToken(CssTokenModel::Number(n)) => Some(n),
            _ => None,
        }
    } else {
        None
    }
}

/// The token `t` stands at `i`.
pub open spec fn token_at(vs: Seq<ComponentValueModel>, i: int, t: CssTokenModel) -> bool {
    0 <= i < vs.len() && vs[i] == ComponentValueModel::PreservedToken(t)
}

/// An integer component lies in `0..=255`; a number with a fraction is checked later,
/// as a float.
pub open spec fn component_in_range(n: NumberModel) -> bool {
    match n {
        NumberModel::Integer(v) => 0 <= v <= 255,
        NumberModel::Number(_) => true,
    }
}

/// The arguments of `rgb()` and `rgba()`: https://www.w3.org/TR/css-color-4/#rgb-functions
///
/// Three numbers, separated by commas in the legacy syntax (whose first separator is
/// a comma) or by whitespace in the modern one, then an optional alpha after a comma
/// (legacy) or a `/` (modern). The alpha is a number with a fraction; a separator
/// with nothing after it is refused, and so is an integer component outside
/// `0..=255`. The components and the alpha; `None` where the arguments are refused.
pub open spec fn rgb_arguments(vs: Seq<ComponentValueModel>) -> Option<(NumberModel, NumberModel, NumberModel, Option<NumberModel>)> {
    let i0 = skip_spaces(vs, 0);
    let i1 = skip_spaces(vs, i0 + 1);
    let legacy = token_at(vs, i1, CssTokenModel::Comma);
    let i2 = if legacy { skip_spaces(vs, i1 + 1) } else { i1 };
    let i3 = skip_spaces(vs, i2 + 1);
    let comma3 = token_at(vs, i3, CssTokenModel::Comma);
    let i4 = if comma3 { skip_spaces(vs, i3 + 1) } else { i3 };
    let i5 = skip_spaces(vs, i4 + 1);
    let sep = if legacy { CssTokenModel::Comma } else { CssTokenModel::Delim('/') };
    let present = token_at(vs, i5, sep);
    let i6 = if present { skip_spaces(vs, i5 + 1) } else { i5 };
    match (number_at(vs, i0), number_at(vs, i2), number_at(vs, i4)) {
        (Some(r), Some(g), Some(b)) => if comma3 && !legacy {
            None
        } else {
            let alpha: Option<Option<NumberModel>> = if 0 <= i6 < vs.len() {
                match number_at(vs, i6) {
                    Some(NumberModel::Number(x)) => Some(Some(NumberModel::Number(x))),
                    _ => None,
                }
            } else if present {
                None
            } else {
                Some(None)
            };
            match alpha {
                Some(a) => if component_in_range(r) && component_in_range(g) && component_in_range(b) {
                    Some((r, g, b, a))
                } else {
                    None
                },
                None => None,
            }
        },
        _ => None,
    }
}

/// The number at `args[i]`, if a number token stands there.
fn number_of(args: &[ComponentValue], i: usize) -> (r: Option<NumericType>)
    ensures
        match number_at(cvs_view(args@), i as int) {
            Some(n) => r matches Some(x) && x@ == n,
            None => r is None,
        },
{
    proof {
        lemma_cvs_view(args@);
    }
    if i < args.len() {
        match &args[i] {
            ComponentValue::PreservedToken(CssToken::Number(n)) => Some(copy_number(n)),
            _ => None,
        }
    } else {
        None
    }
}

/// Whether `args[i]` is the token `,`, or `/` where `slash`.
fn separator_at(args: &[ComponentValue], i: usize, slash: bool) -> (r: bool)
    ensures
        r == token_at(cvs_view(args@), i as int, if slash { CssTokenModel::Delim('/') } else { CssTokenModel::Comma }),
{
    proof {
        lemma_cvs_view(args@);
    }
    if i < args.len() {
        match &args[i] {
            ComponentValue::PreservedToken(CssToken::Comma) => !slash,
            ComponentValue::PreservedToken(CssToken::Delim(d)) => slash && *d == '/',
            _ => false,
        }
    } else {
        false
    }
}

/// Whether an integer component lies in `0..=255`.
fn in_range(n: &NumericType) -> (r: bool)
    ensures
        r == component_in_range(n@),
{
    match n {
        NumericType::Integer(v) => 0 <= *v && *v <= 255,
        NumericType::Number(_) => true,
    }
}

/// Reads the arguments of `rgb()` or `rgba()`: the red, green and blue components and
/// the alpha, if given, as the numbers written (see `rgb_arguments`). Whether a number
/// with a fraction lies in its range is left to the caller, since that takes floating
/// point.
pub fn parse_rgb_arguments(args: &[ComponentValue]) -> (r: Result<(NumericType, NumericType, NumericType, Option<NumericType>), Error>)
    requires
        args@.len() + 8 < usize::MAX,
    ensures
        match rgb_arguments(cvs_view(args@)) {
            Some((mr, mg, mb, ma)) => r matches Ok((x, y, z, a)) && x@ == mr && y@ == mg && z@ == mb && match a {
                Some(v) => ma == Some(v@),
                None => ma is None,
            },
            None => r matches Err(Error::CssParse(_)),
        },
{
    proof {
        lemma_cvs_view(args@);
    }
    let ghost vs = cvs_view(args@);
    let i0 = skip_whitespace(args, 0);
    let red = match number_of(args, i0) {
        Some(x) => x,
        None => {
            return Err(Error::CssParse(string_of("Invalid rgb function")));
        },
    };
    let i1 = skip_whitespace(args, i0 + 1);
    let legacy = separator_at(args, i1, false);
    let i2 = if legacy { skip_whitespace(args, i1 + 1) } else { i1 };
    let green = match number_of(args, i2) {
        Some(x) => x,
        None => {
            return Err(Error::CssParse(string_of("Invalid rgb function")));
        },
    };
    let i3 = skip_whitespace(args, i2 + 1);
    let comma3 = separator_at(args, i3, false);
    if comma3 && !legacy {
        return Err(Error::CssParse(string_of("Invalid rgb function")));
    }
    let i4 = if comma3 { skip_whitespace(args, i3 + 1) } else { i3 };
    let blue = match number_of(args, i4) {
        Some(x) => x,
        None => {
            return Err(Error::CssParse(string_of("Invalid rgb function")));
        },
    };
    let i5 = skip_whitespace(args, i4 + 1);
    let present = separator_at(args, i5, !legacy);
    let i6 = if present { skip_whitespace(args, i5 + 1) } else { i5 };
    let alpha = if i6 < args.len() {
        match number_of(args, i6) {
            Some(NumericType::Number(x)) => Some(NumericType::Number(x)),
            _ => {
                return Err(Error::CssParse(string_of("Invalid rgb function")));
            },
        }
    } else if present {
        return Err(Error::CssParse(string_of("Invalid rgb function")));
    } else {
        None
    };
    if !(in_range(&red) && in_range(&green) && in_range(&blue)) {
        return Err(Error::CssParse(string_of("Invalid value in rgb function")));
    }
    Ok((red, green, blue, alpha))
}

} // verus!
