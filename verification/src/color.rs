//! Colours: the computed value of the `color` property and its parsing.
use vstd::prelude::*;

use vstd::string::StringSliceAdditionalSpecFns;
use vstd::utf8::is_char_boundary;

use crate::error::Error;
use crate::text::{decimal, decimal_of, push_str, str_eq};

verus! {

broadcast use vstd::string::group_string_axioms;

/// Computed value of the `color` property
#[derive(Clone, Copy, Debug, PartialEq, Eq, Structural)]
pub struct Color {
    pub r: u8,
    pub g: u8,
    pub b: u8,
    pub a: u8,
}

impl Default for Color {
    /// Canvas text color: opaque black.
    fn default() -> (c: Color)
        ensures
            c == (Color { r: 0, g: 0, b: 0, a: 255 }),
    {
        Color { r: 0, g: 0, b: 0, a: 255 }
    }
}

/// The opaque colour `(r, g, b)`.
pub open spec fn opaque(r: u8, g: u8, b: u8) -> Color {
    Color { r, g, b, a: 255 }
}

/// The colour keywords that are supported, with their red, green and blue components.
pub open spec fn named_rgb(name: Seq<char>) -> Option<(u8, u8, u8)> {
    if name == "black"@ {
        Some((0, 0, 0))
    } else if name == "gray"@ {
        Some((128, 128, 128))
    } else if name == "white"@ {
        Some((255, 255, 255))
    } else if name == "red"@ {
        Some((255, 0, 0))
    } else if name == "purple"@ {
        Some((128, 0, 128))
    } else if name == "blueviolet"@ {
        Some((138, 43, 226))
    } else if name == "green"@ {
        Some((0, 128, 0))
    } else if name == "yellowgreen"@ {
        Some((154, 205, 50))
    } else if name == "yellow"@ {
        Some((255, 255, 0))
    } else if name == "blue"@ {
        Some((0, 0, 255))
    } else if name == "aqua"@ {
        Some((0, 255, 255))
    } else if name == "orange"@ {
        Some((255, 165, 0))
    } else if name == "brown"@ {
        Some((165, 42, 42))
    } else {
        None
    }
}

/// The keyword of the colour `(r, g, b)`, if it has one.
pub open spec fn rgb_name(r: u8, g: u8, b: u8) -> Option<Seq<char>> {
    if (r, g, b) == (0u8, 0u8, 0u8) {
        Some("black"@)
    } else if (r, g, b) == (128u8, 128u8, 128u8) {
        Some("gray"@)
    } else if (r, g, b) == (255u8, 255u8, 255u8) {
        Some("white"@)
    } else if (r, g, b) == (255u8, 0u8, 0u8) {
        Some("red"@)
    } else if (r, g, b) == (128u8, 0u8, 128u8) {
        Some("purple"@)
    } else if (r, g, b) == (138u8, 43u8, 226u8) {
        Some("blueviolet"@)
    } else if (r, g, b) == (0u8, 128u8, 0u8) {
        Some("green"@)
    } else if (r, g, b) == (154u8, 205u8, 50u8) {
        Some("yellowgreen"@)
    } else if (r, g, b) == (255u8, 255u8, 0u8) {
        Some("yellow"@)
    } else if (r, g, b) == (0u8, 0u8, 255u8) {
        Some("blue"@)
    } else if (r, g, b) == (0u8, 255u8, 255u8) {
        Some("aqua"@)
    } else if (r, g, b) == (255u8, 165u8, 0u8) {
        Some("orange"@)
    } else if (r, g, b) == (165u8, 42u8, 42u8) {
        Some("brown"@)
    } else {
        None
    }
}

/// The value of a hexadecimal digit.
pub open spec fn hex_value(b: u8) -> Option<u8> {
    if 48 <= b <= 57 {
        Some((b - 48) as u8)
    } else if 97 <= b <= 102 {
        Some((b - 87) as u8)
    } else if 65 <= b <= 70 {
        Some((b - 55) as u8)
    } else {
        None
    }
}

/// The two-byte text `[x, y]` read as an unsigned 8-bit number in base 16, as
/// `u8::from_str_radix` reads it: a leading `+` is allowed before one digit.
pub open spec fn radix16(x: u8, y: u8) -> Option<u8> {
    if x == 43 {
        hex_value(y)
    } else {
        match (hex_value(x), hex_value(y)) {
            (Some(h), Some(l)) => Some((h * 16 + l) as u8),
            _ => None,
        }
    }
}

/// Four optional components as a colour, when all are present.
pub open spec fn rgba_of(r: Option<u8>, g: Option<u8>, b: Option<u8>, a: Option<u8>) -> Option<Color> {
    match (r, g, b, a) {
        (Some(r), Some(g), Some(b), Some(a)) => Some(Color { r, g, b, a }),
        _ => None,
    }
}

/// The colour that a hexadecimal colour (its bytes, without `#`) denotes:
/// `rgb` and `rgba` with each digit doubled, or `rrggbb` and `rrggbbaa`.
pub open spec fn hex_color(s: Seq<u8>) -> Option<Color> {
    if s.len() == 3 {
        rgba_of(radix16(s[0], s[0]), radix16(s[1], s[1]), radix16(s[2], s[2]), Some(255))
    } else if s.len() == 4 {
        rgba_of(radix16(s[0], s[0]), radix16(s[1], s[1]), radix16(s[2], s[2]), radix16(s[3], s[3]))
    } else if s.len() == 6 {
        rgba_of(radix16(s[0], s[1]), radix16(s[2], s[3]), radix16(s[4], s[5]), Some(255))
    } else if s.len() == 8 {
        rgba_of(radix16(s[0], s[1]), radix16(s[2], s[3]), radix16(s[4], s[5]), radix16(s[6], s[7]))
    } else {
        None
    }
}

/// Whether the byte offsets at which a hexadecimal colour of this length is cut
/// into its components all fall on character boundaries (cutting inside a
/// character is not defined).
pub open spec fn hex_cuts_on_boundaries(s: Seq<u8>) -> bool {
    if s.len() == 3 || s.len() == 4 {
        is_char_boundary(s, 1) && is_char_boundary(s, 2) && is_char_boundary(s, 3)
    } else if s.len() == 6 || s.len() == 8 {
        is_char_boundary(s, 2) && is_char_boundary(s, 4) && is_char_boundary(s, 6)
    } else {
        true
    }
}

pub(crate) fn hex_digit_value(b: u8) -> (r: Option<u8>)
    ensures
        r == hex_value(b),
{
    if 48 <= b && b <= 57 {
        Some(b - 48)
    } else if 97 <= b && b <= 102 {
        Some(b - 87)
    } else if 65 <= b && b <= 70 {
        Some(b - 55)
    } else {
        None
    }
}

/// Reads `[x, y]` as an unsigned 8-bit number in base 16.
pub(crate) fn from_radix16(x: u8, y: u8) -> (r: Option<u8>)
    ensures
        r == radix16(x, y),
{
    if x == 43 {
        hex_digit_value(y)
    } else {
        match (hex_digit_value(x), hex_digit_value(y)) {
            (Some(h), Some(l)) => Some(h * 16 + l),
            _ => None,
        }
    }
}

/// How a colour is written: its keyword where it is opaque and has one, else
/// `rgb(r, g, b)` where it is opaque, else `rgba(r, g, b, a)`.
pub open spec fn color_text(c: Color) -> Seq<char> {
    if c.a == 255 {
        match rgb_name(c.r, c.g, c.b) {
            Some(n) => n,
            None => "rgb("@ + decimal(c.r as nat) + ", "@ + decimal(c.g as nat) + ", "@ + decimal(c.b as nat)
                + ")"@,
        }
    } else {
        "rgba("@ + decimal(c.r as nat) + ", "@ + decimal(c.g as nat) + ", "@ + decimal(c.b as nat) + ", "@
            + decimal(c.a as nat) + ")"@
    }
}

impl Color {
    /// The colour as it is written: see `color_text`.
    pub fn to_string(&self) -> (s: String)
        ensures
            s@ == color_text(*self),
    {
        if self.a == 255 {
            if let Some(name) = self.get_color_name() {
                return name;
            }
        }
        let mut s = String::new();
        push_str(&mut s, if self.a == 255 { "rgb(" } else { "rgba(" });
        push_str(&mut s, decimal_of(self.r).as_str());
        push_str(&mut s, ", ");
        push_str(&mut s, decimal_of(self.g).as_str());
        push_str(&mut s, ", ");
        push_str(&mut s, decimal_of(self.b).as_str());
        if self.a != 255 {
            push_str(&mut s, ", ");
            push_str(&mut s, decimal_of(self.a).as_str());
        }
        push_str(&mut s, ")");
        assert(s@ == color_text(*self));
        s
    }

    pub fn new(r: u8, g: u8, b: u8, a: u8) -> (c: Self)
        ensures
            c == (Color { r, g, b, a }),
    {
        Self { r, g, b, a }
    }

    /// The colour of a colour keyword.
    pub fn parse_named_color(value: &str) -> (res: Result<Self, Error>)
        ensures
            match named_rgb(value@) {
                Some((r, g, b)) => res == Ok::<Color, Error>(opaque(r, g, b)),
                None => res == Err::<Color, Error>(Error::InvalidColorName),
            },
    {
        if str_eq(value, "black") {
            Ok(Color::new(0, 0, 0, 255))
        } else if str_eq(value, "gray") {
            Ok(Color::new(128, 128, 128, 255))
        } else if str_eq(value, "white") {
            Ok(Color::new(255, 255, 255, 255))
        } else if str_eq(value, "red") {
            Ok(Color::new(255, 0, 0, 255))
        } else if str_eq(value, "purple") {
            Ok(Color::new(128, 0, 128, 255))
        } else if str_eq(value, "blueviolet") {
            Ok(Color::new(138, 43, 226, 255))
        } else if str_eq(value, "green") {
            Ok(Color::new(0, 128, 0, 255))
        } else if str_eq(value, "yellowgreen") {
            Ok(Color::new(154, 205, 50, 255))
        } else if str_eq(value, "yellow") {
            Ok(Color::new(255, 255, 0, 255))
        } else if str_eq(value, "blue") {
            Ok(Color::new(0, 0, 255, 255))
        } else if str_eq(value, "aqua") {
            Ok(Color::new(0, 255, 255, 255))
        } else if str_eq(value, "orange") {
            Ok(Color::new(255, 165, 0, 255))
        } else if str_eq(value, "brown") {
            Ok(Color::new(165, 42, 42, 255))
        } else {
            Err(Error::InvalidColorName)
        }
    }

    /// The colour of a hexadecimal colour, given without its `#`.
    pub fn parse_hex_color(value: &str) -> (res: Result<Self, Error>)
        requires
            hex_cuts_on_boundaries(value.spec_bytes()),
        ensures
            match hex_color(value.spec_bytes()) {
                Some(c) => res == Ok::<Color, Error>(c),
                None => res == Err::<Color, Error>(Error::InvalidHexColor),
            },
    {
        let s = value.as_bytes();
        let n = value.len();
        let (r, g, b, a) = if n == 3 {
            (from_radix16(s[0], s[0]), from_radix16(s[1], s[1]), from_radix16(s[2], s[2]), Some(255u8))
        } else if n == 4 {
            (from_radix16(s[0], s[0]), from_radix16(s[1], s[1]), from_radix16(s[2], s[2]), from_radix16(s[3], s[3]))
        } else if n == 6 {
            (from_radix16(s[0], s[1]), from_radix16(s[2], s[3]), from_radix16(s[4], s[5]), Some(255u8))
        } else if n == 8 {
            (from_radix16(s[0], s[1]), from_radix16(s[2], s[3]), from_radix16(s[4], s[5]), from_radix16(s[6], s[7]))
        } else {
            return Err(Error::InvalidHexColor);
        };
        match (r, g, b, a) {
            (Some(r), Some(g), Some(b), Some(a)) => Ok(Color::new(r, g, b, a)),
            _ => Err(Error::InvalidHexColor),
        }
    }

    /// The keyword of an opaque colour that has one.
    pub fn get_color_name(&self) -> (name: Option<String>)
        ensures
            match name {
                Some(n) => self.a == 255 && rgb_name(self.r, self.g, self.b) == Some(n@),
                None => self.a != 255 || rgb_name(self.r, self.g, self.b) is None,
            },
    {
        if self.a != 255 {
            return None;
        }
        let n = crate::style::property::color::rgb_to_name(self.r, self.g, self.b);
        n
    }
}

/// Every byte of `s` is a hexadecimal digit.
pub open spec fn all_hex(s: Seq<u8>) -> bool {
    forall|i: int| 0 <= i < s.len() ==> #[trigger] hex_value(s[i]) is Some
}

/// `s` with each byte written twice.
pub open spec fn doubled(s: Seq<u8>) -> Seq<u8> {
    Seq::new(2 * s.len(), |i: int| s[i / 2])
}

/// The value of the two hexadecimal digits `x`, `y`.
pub open spec fn pair_value(x: u8, y: u8) -> u8 {
    (hex_value(x)->0 * 16 + hex_value(y)->0) as u8
}

/// A short hexadecimal colour (three or four digits) denotes the same colour as its
/// long form, each digit doubled; where all are hexadecimal digits, that colour exists.
pub proof fn lemma_short_hex_doubles(s: Seq<u8>)
    requires
        s.len() == 3 || s.len() == 4,
    ensures
        hex_color(s) == hex_color(doubled(s)),
        all_hex(s) ==> hex_color(s) is Some,
{
    let d = doubled(s);
    assert(d.len() == 2 * s.len());
    assert(d[0] == s[0] && d[1] == s[0] && d[2] == s[1] && d[3] == s[1] && d[4] == s[2] && d[5] == s[2]);
    if s.len() == 4 {
        assert(d[6] == s[3] && d[7] == s[3]);
    }
    if all_hex(s) {
        assert(hex_value(s[0]) is Some && hex_value(s[1]) is Some && hex_value(s[2]) is Some);
        if s.len() == 4 {
            assert(hex_value(s[3]) is Some);
        }
    }
}

/// A six- or eight-digit hexadecimal colour of hexadecimal digits reads pair by pair:
/// red, green, blue, and alpha (255 where there are six digits).
pub proof fn lemma_long_hex_pairs(s: Seq<u8>)
    requires
        s.len() == 6 || s.len() == 8,
        all_hex(s),
    ensures
        hex_color(s) == Some(
            Color {
                r: pair_value(s[0], s[1]),
                g: pair_value(s[2], s[3]),
                b: pair_value(s[4], s[5]),
                a: if s.len() == 8 {
                    pair_value(s[6], s[7])
                } else {
                    255
                },
            },
        ),
{
    assert(hex_value(s[0]) is Some && hex_value(s[1]) is Some && hex_value(s[2]) is Some);
    assert(hex_value(s[3]) is Some && hex_value(s[4]) is Some && hex_value(s[5]) is Some);
    if s.len() == 8 {
        assert(hex_value(s[6]) is Some && hex_value(s[7]) is Some);
    }
}

/// Where the text is ASCII, every place at which a hexadecimal colour is cut is a
/// character boundary, so reading it is defined.
pub proof fn lemma_ascii_hex_cuts(s: Seq<u8>)
    requires
        vstd::utf8::valid_utf8(s),
        forall|i: int| 0 <= i < s.len() ==> #[trigger] s[i] < 128,
    ensures
        hex_cuts_on_boundaries(s),
{
    vstd::utf8::is_char_boundary_start_end_of_seq(s);
    assert forall|i: int| 0 < i < s.len() implies is_char_boundary(s, i) by {
        vstd::utf8::is_char_boundary_iff_not_is_continuation_byte(s, i);
        assert(s[i] < 128);
    }
}

/// The supported colour keywords and their colours; no other name is a keyword.
pub proof fn lemma_keywords()
    ensures
        named_rgb("black"@) == Some((0u8, 0u8, 0u8)),
        named_rgb("gray"@) == Some((128u8, 128u8, 128u8)),
        named_rgb("white"@) == Some((255u8, 255u8, 255u8)),
        named_rgb("red"@) == Some((255u8, 0u8, 0u8)),
        named_rgb("purple"@) == Some((128u8, 0u8, 128u8)),
        named_rgb("blueviolet"@) == Some((138u8, 43u8, 226u8)),
        named_rgb("green"@) == Some((0u8, 128u8, 0u8)),
        named_rgb("yellowgreen"@) == Some((154u8, 205u8, 50u8)),
        named_rgb("yellow"@) == Some((255u8, 255u8, 0u8)),
        named_rgb("blue"@) == Some((0u8, 0u8, 255u8)),
        named_rgb("aqua"@) == Some((0u8, 255u8, 255u8)),
        named_rgb("orange"@) == Some((255u8, 165u8, 0u8)),
        named_rgb("brown"@) == Some((165u8, 42u8, 42u8)),
        forall|name: Seq<char>|
            #[trigger] named_rgb(name) is Some ==> name == "black"@ || name == "gray"@ || name == "white"@ || name
                == "red"@ || name == "purple"@ || name == "blueviolet"@ || name == "green"@ || name == "yellowgreen"@
                || name == "yellow"@ || name == "blue"@ || name == "aqua"@ || name == "orange"@ || name == "brown"@,
{
    reveal_strlit("black");
    reveal_strlit("gray");
    reveal_strlit("white");
    reveal_strlit("red");
    reveal_strlit("purple");
    reveal_strlit("blueviolet");
    reveal_strlit("green");
    reveal_strlit("yellowgreen");
    reveal_strlit("yellow");
    reveal_strlit("blue");
    reveal_strlit("aqua");
    reveal_strlit("orange");
    reveal_strlit("brown");
    assert("gray"@.len() != "black"@.len());
    assert("white"@[0] != "black"@[0]);
    assert("white"@.len() != "gray"@.len());
    assert("red"@.len() != "black"@.len());
    assert("red"@.len() != "gray"@.len());
    assert("red"@.len() != "white"@.len());
    assert("purple"@.len() != "black"@.len());
    assert("purple"@.len() != "gray"@.len());
    assert("purple"@.len() != "white"@.len());
    assert("purple"@.len() != "red"@.len());
    assert("blueviolet"@.len() != "black"@.len());
    assert("blueviolet"@.len() != "gray"@.len());
    assert("blueviolet"@.len() != "white"@.len());
    assert("blueviolet"@.len() != "red"@.len());
    assert("blueviolet"@.len() != "purple"@.len());
    assert("green"@[0] != "black"@[0]);
    assert("green"@.len() != "gray"@.len());
    assert("green"@[0] != "white"@[0]);
    assert("green"@.len() != "red"@.len());
    assert("green"@.len() != "purple"@.len());
    assert("green"@.len() != "blueviolet"@.len());
    assert("yellowgreen"@.len() != "black"@.len());
    assert("yellowgreen"@.len() != "gray"@.len());
    assert("yellowgreen"@.len() != "white"@.len());
    assert("yellowgreen"@.len() != "red"@.len());
    assert("yellowgreen"@.len() != "purple"@.len());
    assert("yellowgreen"@.len() != "blueviolet"@.len());
    assert("yellowgreen"@.len() != "green"@.len());
    assert("yellow"@.len() != "black"@.len());
    assert("yellow"@.len() != "gray"@.len());
    assert("yellow"@.len() != "white"@.len());
    assert("yellow"@.len() != "red"@.len());
    assert("yellow"@[0] != "purple"@[0]);
    assert("yellow"@.len() != "blueviolet"@.len());
    assert("yellow"@.len() != "green"@.len());
    assert("yellow"@.len() != "yellowgreen"@.len());
    assert("blue"@.len() != "black"@.len());
    assert("blue"@[0] != "gray"@[0]);
    assert("blue"@.len() != "white"@.len());
    assert("blue"@.len() != "red"@.len());
    assert("blue"@.len() != "purple"@.len());
    assert("blue"@.len() != "blueviolet"@.len());
    assert("blue"@.len() != "green"@.len());
    assert("blue"@.len() != "yellowgreen"@.len());
    assert("blue"@.len() != "yellow"@.len());
    assert("aqua"@.len() != "black"@.len());
    assert("aqua"@[0] != "gray"@[0]);
    assert("aqua"@.len() != "white"@.len());
    assert("aqua"@.len() != "red"@.len());
    assert("aqua"@.len() != "purple"@.len());
    assert("aqua"@.len() != "blueviolet"@.len());
    assert("aqua"@.len() != "green"@.len());
    assert("aqua"@.len() != "yellowgreen"@.len());
    assert("aqua"@.len() != "yellow"@.len());
    assert("aqua"@[0] != "blue"@[0]);
    assert("orange"@.len() != "black"@.len());
    assert("orange"@.len() != "gray"@.len());
    assert("orange"@.len() != "white"@.len());
    assert("orange"@.len() != "red"@.len());
    assert("orange"@[0] != "purple"@[0]);
    assert("orange"@.len() != "blueviolet"@.len());
    assert("orange"@.len() != "green"@.len());
    assert("orange"@.len() != "yellowgreen"@.len());
    assert("orange"@[0] != "yellow"@[0]);
    assert("orange"@.len() != "blue"@.len());
    assert("orange"@.len() != "aqua"@.len());
    assert("brown"@[1] != "black"@[1]);
    assert("brown"@.len() != "gray"@.len());
    assert("brown"@[0] != "white"@[0]);
    assert("brown"@.len() != "red"@.len());
    assert("brown"@.len() != "purple"@.len());
    assert("brown"@.len() != "blueviolet"@.len());
    assert("brown"@[0] != "green"@[0]);
    assert("brown"@.len() != "yellowgreen"@.len());
    assert("brown"@.len() != "yellow"@.len());
    assert("brown"@.len() != "blue"@.len());
    assert("brown"@.len() != "aqua"@.len());
    assert("brown"@.len() != "orange"@.len());
}

/// A colour keyword names the colour whose keyword it is: the colour of a supported
/// keyword is opaque, and its keyword is that keyword again.
pub proof fn lemma_name_round_trip(name: Seq<char>)
    requires
        named_rgb(name) is Some,
    ensures
        ({
            let (r, g, b) = named_rgb(name).unwrap();
            rgb_name(r, g, b) == Some(name)
        }),
{
}

/// A colour that has a keyword is the colour of that keyword.
pub proof fn lemma_rgb_round_trip(r: u8, g: u8, b: u8)
    requires
        rgb_name(r, g, b) is Some,
    ensures
        named_rgb(rgb_name(r, g, b)->0) == Some((r, g, b)),
{
    reveal_strlit("black");
    reveal_strlit("gray");
    reveal_strlit("white");
    reveal_strlit("red");
    reveal_strlit("purple");
    reveal_strlit("blueviolet");
    reveal_strlit("green");
    reveal_strlit("yellowgreen");
    reveal_strlit("yellow");
    reveal_strlit("blue");
    reveal_strlit("aqua");
    reveal_strlit("orange");
    reveal_strlit("brown");
    if (r, g, b) == (0u8, 0u8, 0u8) {
        assert(named_rgb("black"@) == Some((0u8, 0u8, 0u8)));
    } else if (r, g, b) == (128u8, 128u8, 128u8) {
        assert("gray"@.len() != "black"@.len());
        assert(named_rgb("gray"@) == Some((128u8, 128u8, 128u8)));
    } else if (r, g, b) == (255u8, 255u8, 255u8) {
        assert("white"@[0] != "black"@[0]);
        assert("white"@.len() != "gray"@.len());
        assert(named_rgb("white"@) == Some((255u8, 255u8, 255u8)));
    } else if (r, g, b) == (255u8, 0u8, 0u8) {
        assert("red"@.len() != "black"@.len());
        assert("red"@.len() != "gray"@.len());
        assert("red"@.len() != "white"@.len());
        assert(named_rgb("red"@) == Some((255u8, 0u8, 0u8)));
    } else if (r, g, b) == (128u8, 0u8, 128u8) {
        assert("purple"@.len() != "black"@.len());
        assert("purple"@.len() != "gray"@.len());
        assert("purple"@.len() != "white"@.len());
        assert("purple"@.len() != "red"@.len());
        assert(named_rgb("purple"@) == Some((128u8, 0u8, 128u8)));
    } else if (r, g, b) == (138u8, 43u8, 226u8) {
        assert("blueviolet"@.len() != "black"@.len());
        assert("blueviolet"@.len() != "gray"@.len());
        assert("blueviolet"@.len() != "white"@.len());
        assert("blueviolet"@.len() != "red"@.len());
        assert("blueviolet"@.len() != "purple"@.len());
        assert(named_rgb("blueviolet"@) == Some((138u8, 43u8, 226u8)));
    } else if (r, g, b) == (0u8, 128u8, 0u8) {
        assert("green"@[0] != "black"@[0]);
        assert("green"@.len() != "gray"@.len());
        assert("green"@[0] != "white"@[0]);
        assert("green"@.len() != "red"@.len());
        assert("green"@.len() != "purple"@.len());
        assert("green"@.len() != "blueviolet"@.len());
        assert(named_rgb("green"@) == Some((0u8, 128u8, 0u8)));
    } else if (r, g, b) == (154u8, 205u8, 50u8) {
        assert("yellowgreen"@.len() != "black"@.len());
        assert("yellowgreen"@.len() != "gray"@.len());
        assert("yellowgreen"@.len() != "white"@.len());
        assert("yellowgreen"@.len() != "red"@.len());
        assert("yellowgreen"@.len() != "purple"@.len());
        assert("yellowgreen"@.len() != "blueviolet"@.len());
        assert("yellowgreen"@.len() != "green"@.len());
        assert(named_rgb("yellowgreen"@) == Some((154u8, 205u8, 50u8)));
    } else if (r, g, b) == (255u8, 255u8, 0u8) {
        assert("yellow"@.len() != "black"@.len());
        assert("yellow"@.len() != "gray"@.len());
        assert("yellow"@.len() != "white"@.len());
        assert("yellow"@.len() != "red"@.len());
        assert("yellow"@[0] != "purple"@[0]);
        assert("yellow"@.len() != "blueviolet"@.len());
        assert("yellow"@.len() != "green"@.len());
        assert("yellow"@.len() != "yellowgreen"@.len());
        assert(named_rgb("yellow"@) == Some((255u8, 255u8, 0u8)));
    } else if (r, g, b) == (0u8, 0u8, 255u8) {
        assert("blue"@.len() != "black"@.len());
        assert("blue"@[0] != "gray"@[0]);
        assert("blue"@.len() != "white"@.len());
        assert("blue"@.len() != "red"@.len());
        assert("blue"@.len() != "purple"@.len());
        assert("blue"@.len() != "blueviolet"@.len());
        assert("blue"@.len() != "green"@.len());
        assert("blue"@.len() != "yellowgreen"@.len());
        assert("blue"@.len() != "yellow"@.len());
        assert(named_rgb("blue"@) == Some((0u8, 0u8, 255u8)));
    } else if (r, g, b) == (0u8, 255u8, 255u8) {
        assert("aqua"@.len() != "black"@.len());
        assert("aqua"@[0] != "gray"@[0]);
        assert("aqua"@.len() != "white"@.len());
        assert("aqua"@.len() != "red"@.len());
        assert("aqua"@.len() != "purple"@.len());
        assert("aqua"@.len() != "blueviolet"@.len());
        assert("aqua"@.len() != "green"@.len());
        assert("aqua"@.len() != "yellowgreen"@.len());
        assert("aqua"@.len() != "yellow"@.len());
        assert("aqua"@[0] != "blue"@[0]);
        assert(named_rgb("aqua"@) == Some((0u8, 255u8, 255u8)));
    } else if (r, g, b) == (255u8, 165u8, 0u8) {
        assert("orange"@.len() != "black"@.len());
        assert("orange"@.len() != "gray"@.len());
        assert("orange"@.len() != "white"@.len());
        assert("orange"@.len() != "red"@.len());
        assert("orange"@[0] != "purple"@[0]);
        assert("orange"@.len() != "blueviolet"@.len());
        assert("orange"@.len() != "green"@.len());
        assert("orange"@.len() != "yellowgreen"@.len());
        assert("orange"@[0] != "yellow"@[0]);
        assert("orange"@.len() != "blue"@.len());
        assert("orange"@.len() != "aqua"@.len());
        assert(named_rgb("orange"@) == Some((255u8, 165u8, 0u8)));
    } else if (r, g, b) == (165u8, 42u8, 42u8) {
        assert("brown"@[1] != "black"@[1]);
        assert("brown"@.len() != "gray"@.len());
        assert("brown"@[0] != "white"@[0]);
        assert("brown"@.len() != "red"@.len());
        assert("brown"@.len() != "purple"@.len());
        assert("brown"@.len() != "blueviolet"@.len());
        assert("brown"@[0] != "green"@[0]);
        assert("brown"@.len() != "yellowgreen"@.len());
        assert("brown"@.len() != "yellow"@.len());
        assert("brown"@.len() != "blue"@.len());
        assert("brown"@.len() != "aqua"@.len());
        assert("brown"@.len() != "orange"@.len());
        assert(named_rgb("brown"@) == Some((165u8, 42u8, 42u8)));
    }
}

} // verus!
