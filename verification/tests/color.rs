use pentas::color::Color;
use pentas::error::Error;
use pentas::style::property::color::{hex_to_rgba, name_to_rgb, parse_rgb_arguments, rgb_to_name};
use pentas::css::cssom::ComponentValue;
use pentas::css::token::{CssToken, NumericType};

#[test]
fn test_parse_hex_color() {
    assert_eq!(Color::parse_hex_color("000000").unwrap(), Color::new(0, 0, 0, 255));
    assert_eq!(Color::parse_hex_color("000").unwrap(), Color::new(0, 0, 0, 255));
    assert_eq!(Color::parse_hex_color("00000000").unwrap(), Color::new(0, 0, 0, 0));
    assert_eq!(Color::parse_hex_color("0000").unwrap(), Color::new(0, 0, 0, 0));
    assert_eq!(Color::parse_hex_color("ffffff").unwrap(), Color::new(255, 255, 255, 255));
    assert_eq!(Color::parse_hex_color("fff").unwrap(), Color::new(255, 255, 255, 255));
    assert_eq!(Color::parse_hex_color("ff0000").unwrap(), Color::new(255, 0, 0, 255));
    assert_eq!(Color::parse_hex_color("f00").unwrap(), Color::new(255, 0, 0, 255));
    assert_eq!(Color::parse_hex_color("ff000000").unwrap(), Color::new(255, 0, 0, 0));
    assert_eq!(Color::parse_hex_color("f000").unwrap(), Color::new(255, 0, 0, 0));
    assert_eq!(Color::parse_hex_color("111").unwrap(), Color::new(17, 17, 17, 255)); // 0x11 = 17
    assert_eq!(Color::parse_hex_color("1111").unwrap(), Color::new(17, 17, 17, 17));
}

#[test]
fn parse_hex_color_mixed_case_digits() {
    assert_eq!(Color::parse_hex_color("1A2b3C").unwrap(), Color::new(0x1a, 0x2b, 0x3c, 255));
    assert_eq!(Color::parse_hex_color("aBc").unwrap(), Color::new(0xaa, 0xbb, 0xcc, 255));
}

#[test]
fn parse_hex_color_rejects_bad_lengths_and_digits() {
    assert_eq!(Color::parse_hex_color("12345"), Err(Error::InvalidHexColor));
    assert_eq!(Color::parse_hex_color(""), Err(Error::InvalidHexColor));
    assert_eq!(Color::parse_hex_color("gggggg"), Err(Error::InvalidHexColor));
}

#[test]
fn parse_named_color_known_and_unknown() {
    assert_eq!(Color::parse_named_color("red").unwrap(), Color::new(255, 0, 0, 255));
    assert_eq!(Color::parse_named_color("black").unwrap(), Color::new(0, 0, 0, 255));
    assert_eq!(Color::parse_named_color("notacolor"), Err(Error::InvalidColorName));
}

#[test]
fn color_name_round_trip() {
    let c = Color::parse_named_color("blue").unwrap();
    assert_eq!(c.get_color_name(), Some("blue".to_string()));
    assert_eq!(Color::new(1, 2, 3, 255).get_color_name(), None);
    assert_eq!(Color::new(255, 0, 0, 0).get_color_name(), None);
}

#[test]
fn rgb_to_name_of_keywords() {
    assert_eq!(rgb_to_name(255, 0, 0), Some("red".to_string()));
    assert_eq!(rgb_to_name(1, 1, 1), None);
}

#[test]
fn default_color_is_opaque_black() {
    assert_eq!(Color::default(), Color::new(0, 0, 0, 255));
}

#[test]
fn color_is_written_by_keyword_or_components() {
    assert_eq!(Color::new(255, 0, 0, 255).to_string(), "red");
    assert_eq!(Color::new(1, 2, 3, 255).to_string(), "rgb(1, 2, 3)");
    assert_eq!(Color::new(10, 200, 30, 128).to_string(), "rgba(10, 200, 30, 128)");
    assert_eq!(Color::new(255, 0, 0, 0).to_string(), "rgba(255, 0, 0, 0)");
    assert_eq!(Color::new(100, 0, 9, 255).to_string(), "rgb(100, 0, 9)");
}

#[test]
fn keyword_and_hex_components() {
    assert_eq!(name_to_rgb("Brown"), Some((165, 42, 42)));
    assert_eq!(name_to_rgb("BLUEVIOLET"), Some((138, 43, 226)));
    assert_eq!(name_to_rgb("teal"), None);
    assert_eq!(hex_to_rgba("0a0b0c"), Ok((10, 11, 12, 255)));
    assert_eq!(hex_to_rgba("FF000080"), Ok((255, 0, 0, 128)));
    assert_eq!(hex_to_rgba("+f+f+f"), Ok((15, 15, 15, 255)));
    assert_eq!(hex_to_rgba("fff"), Err(Error::InvalidHexColor));
    assert_eq!(hex_to_rgba("gg0000"), Err(Error::InvalidHexColor));
}

fn num(n: i32) -> ComponentValue {
    ComponentValue::PreservedToken(CssToken::Number(NumericType::Integer(n)))
}

fn frac(s: &str) -> ComponentValue {
    ComponentValue::PreservedToken(CssToken::Number(NumericType::Number(s.to_string())))
}

fn tok(t: CssToken) -> ComponentValue {
    ComponentValue::PreservedToken(t)
}

#[test]
fn rgb_arguments_in_both_syntaxes() {
    let ws = || tok(CssToken::Whitespace);
    // modern: whitespace, alpha after `/`
    let args = vec![num(255), ws(), num(0), ws(), frac("0.5"), ws(), tok(CssToken::Delim('/')), ws(), frac(".25")];
    assert_eq!(
        parse_rgb_arguments(&args).unwrap(),
        (
            NumericType::Integer(255),
            NumericType::Integer(0),
            NumericType::Number("0.5".to_string()),
            Some(NumericType::Number(".25".to_string()))
        )
    );
    // legacy: commas, no alpha
    let args = vec![num(1), tok(CssToken::Comma), ws(), num(2), tok(CssToken::Comma), num(3)];
    assert_eq!(
        parse_rgb_arguments(&args).unwrap(),
        (NumericType::Integer(1), NumericType::Integer(2), NumericType::Integer(3), None)
    );
    // a comma after whitespace-separated components
    let args = vec![num(1), ws(), num(2), tok(CssToken::Comma), num(3)];
    assert!(matches!(parse_rgb_arguments(&args), Err(Error::CssParse(_))));
    // a separator with nothing after it
    let args = vec![num(1), ws(), num(2), ws(), num(3), ws(), tok(CssToken::Delim('/'))];
    assert!(matches!(parse_rgb_arguments(&args), Err(Error::CssParse(_))));
    // an integer alpha, an integer component out of range, too few components
    let args = vec![num(1), ws(), num(2), ws(), num(3), tok(CssToken::Delim('/')), num(1)];
    assert!(matches!(parse_rgb_arguments(&args), Err(Error::CssParse(_))));
    let args = vec![num(256), ws(), num(2), ws(), num(3)];
    assert!(matches!(parse_rgb_arguments(&args), Err(Error::CssParse(_))));
    let args = vec![num(1), ws(), num(2)];
    assert!(matches!(parse_rgb_arguments(&args), Err(Error::CssParse(_))));
}

#[test]
fn short_hex_reads_as_its_doubled_form() {
    for (short, long) in [("f00", "ff0000"), ("1111", "11111111"), ("a1B", "aa11BB"), ("0f0a", "00ff00aa")] {
        assert_eq!(Color::parse_hex_color(short), Color::parse_hex_color(long));
        assert!(Color::parse_hex_color(short).is_ok());
    }
    assert_eq!(Color::parse_hex_color("1a2b3c").unwrap(), Color::new(0x1a, 0x2b, 0x3c, 255));
    assert_eq!(Color::parse_hex_color("1a2b3c4d").unwrap(), Color::new(0x1a, 0x2b, 0x3c, 0x4d));
}

#[test]
fn the_thirteen_keywords() {
    let table = [
        ("black", (0, 0, 0)),
        ("gray", (128, 128, 128)),
        ("white", (255, 255, 255)),
        ("red", (255, 0, 0)),
        ("purple", (128, 0, 128)),
        ("blueviolet", (138, 43, 226)),
        ("green", (0, 128, 0)),
        ("yellowgreen", (154, 205, 50)),
        ("yellow", (255, 255, 0)),
        ("blue", (0, 0, 255)),
        ("aqua", (0, 255, 255)),
        ("orange", (255, 165, 0)),
        ("brown", (165, 42, 42)),
    ];
    for (name, (r, g, b)) in table {
        assert_eq!(Color::parse_named_color(name).unwrap(), Color::new(r, g, b, 255));
    }
    assert_eq!(Color::parse_named_color("Red"), Err(Error::InvalidColorName));
    assert_eq!(Color::parse_named_color("pink"), Err(Error::InvalidColorName));
}
