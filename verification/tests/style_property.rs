use pentas::css::dtype::{
    AbsoluteLengthUnit, AbsoluteSize, CssValue, LengthUnit, RelativeLengthUnit, RelativeSize, parse_length_percentage_type,
    parse_length_type, parse_percentage_type,
};
use pentas::css::token::NumericType;
use pentas::style::property::border::BorderProp;
use pentas::style::property::border_radius::BorderRadiusProp;
use pentas::style::property::font_family::FontFamilyProp;
use pentas::style::property::font_size::{FontSizeProp, parse_font_size};
use pentas::style::property::height::HeightProp;
use pentas::style::property::margin::{MarginBlockProp, MarginProp};
use pentas::style::property::padding::{PaddingProp, parse_padding};
use pentas::style::property::width::{WidthProp, parse_width};
use pentas::color::Color;
use pentas::css::cssom::ComponentValue;
use pentas::css::token::CssToken;
use pentas::error::Error;
use pentas::render_tree::DisplayType;
use pentas::style::property::display::{DisplayBox, DisplayInside, DisplayOutside, DisplayProp};
use pentas::text_decoration::{TextDecoration, TextDecorationLine, TextDecorationStyle};
use pentas::style::property::text_decoration::{parse_text_decoration_line, parse_text_decoration_style};

fn ident(s: &str) -> ComponentValue {
    ComponentValue::PreservedToken(CssToken::Ident(s.to_string()))
}

fn ws() -> ComponentValue {
    ComponentValue::PreservedToken(CssToken::Whitespace)
}

#[test]
fn parse_valid_display() {
    let values = vec![ident("block")];
    let display = DisplayProp::parse(&values).unwrap();
    assert_eq!(display.inside, DisplayInside::Flow);
    assert_eq!(display.outside, DisplayOutside::Block);
    assert_eq!(display.display_box, None);

    let values = vec![ident("table"), ws(), ident("block")];
    let display = DisplayProp::parse(&values).unwrap();
    assert_eq!(display.inside, DisplayInside::Table);
    assert_eq!(display.outside, DisplayOutside::Block);
    assert_eq!(display.display_box, None);

    let values = vec![ident("none")];
    let display = DisplayProp::parse(&values).unwrap();
    assert_eq!(display.inside, DisplayInside::Flow);
    assert_eq!(display.outside, DisplayOutside::Inline);
    assert_eq!(display.display_box, Some(DisplayBox::NoBox));

    let values = vec![ident("contents")];
    let display = DisplayProp::parse(&values).unwrap();
    assert_eq!(display.inside, DisplayInside::Flow);
    assert_eq!(display.outside, DisplayOutside::Inline);
    assert_eq!(display.display_box, Some(DisplayBox::Contents));
}

#[test]
#[should_panic]
fn parse_invalid_display() {
    let values = vec![ident("block"), ws(), ident("inline")];
    DisplayProp::parse(&values).unwrap();
}

#[test]
fn display_halves_in_either_order_and_repeated_inside() {
    let values = vec![ident("inline"), ws(), ident("table"), ws()];
    let display = DisplayProp::parse(&values).unwrap();
    assert_eq!(display.inside, DisplayInside::Table);
    assert_eq!(display.outside, DisplayOutside::Inline);
    let values = vec![ident("flow"), ws(), ident("table")];
    assert!(matches!(DisplayProp::parse(&values), Err(Error::CssParse(_))));
    assert_eq!(DisplayProp::parse(&[]).unwrap(), DisplayProp::default());
    assert_eq!(DisplayProp::parse(&[ws(), ident("block")]).unwrap(), DisplayProp::default());
}

#[test]
fn display_type_from_keyword() {
    assert_eq!(DisplayType::parse(&[ident("inline")]), DisplayType::Inline);
    assert_eq!(DisplayType::parse(&[ident("block"), ws()]), DisplayType::Block);
    assert_eq!(DisplayType::parse(&[ident("none")]), DisplayType::NoBox);
}

#[test]
fn text_decoration_underline_takes_current_color() {
    let red = Color::new(255, 0, 0, 255);
    let d = TextDecoration::parse(&[ident("underline")], &red).unwrap();
    assert_eq!(d.color, red);
    assert_eq!(d.line, TextDecorationLine::Underline);
    assert_eq!(d.style, TextDecorationStyle::Solid);
}

#[test]
fn length_unit_names() {
    assert_eq!(LengthUnit::AbsoluteLengthUnit(AbsoluteLengthUnit::Px).to_string(), "Px");
    assert_eq!(LengthUnit::RelativeLengthUnit(RelativeLengthUnit::Vmin).to_string(), "Vmin");
    assert_eq!(LengthUnit::AbsoluteLengthUnit(AbsoluteLengthUnit::Q).to_string(), "Q");
}

fn dim(n: NumericType, unit: &str) -> ComponentValue {
    ComponentValue::PreservedToken(CssToken::Dimension(n, unit.to_string()))
}

fn num(s: &str) -> NumericType {
    NumericType::Number(s.to_string())
}

fn px(n: NumericType) -> CssValue {
    CssValue::Length(n, LengthUnit::AbsoluteLengthUnit(AbsoluteLengthUnit::Px))
}

#[test]
fn parse_size() {
    let value = vec![ident("small")];
    assert_eq!(FontSizeProp::parse(&value).unwrap(), FontSizeProp { size: CssValue::AbsoluteSize(AbsoluteSize::Small) });
    let value = vec![ident("medium")];
    assert_eq!(FontSizeProp::parse(&value).unwrap(), FontSizeProp { size: CssValue::AbsoluteSize(AbsoluteSize::Medium) });
    let value = vec![ident("large")];
    assert_eq!(FontSizeProp::parse(&value).unwrap(), FontSizeProp { size: CssValue::AbsoluteSize(AbsoluteSize::Large) });
    let value = vec![ident("larger")];
    assert_eq!(FontSizeProp::parse(&value).unwrap(), FontSizeProp { size: CssValue::RelativeSize(RelativeSize::Larger) });
    let value = vec![ident("smaller")];
    assert_eq!(FontSizeProp::parse(&value).unwrap(), FontSizeProp { size: CssValue::RelativeSize(RelativeSize::Smaller) });
    let value = vec![dim(num("12.0"), "px")];
    assert_eq!(FontSizeProp::parse(&value).unwrap(), FontSizeProp { size: px(num("12.0")) });
    let value = vec![dim(num("1.5"), "em")];
    assert_eq!(
        FontSizeProp::parse(&value).unwrap(),
        FontSizeProp { size: CssValue::Length(num("1.5"), LengthUnit::RelativeLengthUnit(RelativeLengthUnit::Em)) }
    );
    let value = vec![ComponentValue::PreservedToken(CssToken::Percentage(num("50.0")))];
    assert_eq!(FontSizeProp::parse(&value).unwrap(), FontSizeProp { size: CssValue::Percentage(num("50.0")) });
}

#[test]
fn font_size_keyword_errors() {
    assert!(matches!(FontSizeProp::parse(&[ident("huge")]), Err(Error::CssParse(_))));
    assert!(matches!(FontSizeProp::parse(&[]), Err(Error::CssParse(_))));
    assert!(matches!(FontSizeProp::parse(&[ws()]), Err(Error::CssParse(_))));
    assert_eq!(FontSizeProp::default().size, CssValue::AbsoluteSize(AbsoluteSize::Medium));
}

#[test]
fn parse_valid_margin() {
    let value = vec![dim(num("10.0"), "px"), dim(num("20.0"), "px"), dim(num("30.0"), "px"), dim(num("40.0"), "px")];
    assert_eq!(
        MarginProp::parse(&value).unwrap(),
        MarginProp { top: px(num("10.0")), right: px(num("20.0")), bottom: px(num("30.0")), left: px(num("40.0")) }
    );
}

#[test]
fn margin_and_padding_fill_missing_sides() {
    let a = || dim(NumericType::Integer(1), "px");
    let b = || dim(NumericType::Integer(2), "em");
    let c = || ComponentValue::PreservedToken(CssToken::Percentage(NumericType::Integer(3)));
    let one = MarginProp::parse(&[ws(), a(), ws()]).unwrap();
    assert_eq!(one.top, px(NumericType::Integer(1)));
    assert_eq!(one.left, px(NumericType::Integer(1)));
    let two = PaddingProp::parse(&[a(), ws(), b()]).unwrap();
    let em2 = CssValue::Length(NumericType::Integer(2), LengthUnit::RelativeLengthUnit(RelativeLengthUnit::Em));
    assert_eq!(two, PaddingProp { top: px(NumericType::Integer(1)), right: em2.clone(), bottom: px(NumericType::Integer(1)), left: em2.clone() });
    let three = PaddingProp::parse(&[a(), ws(), b(), ws(), c()]).unwrap();
    assert_eq!(three.bottom, CssValue::Percentage(NumericType::Integer(3)));
    assert_eq!(three.left, em2);
    let auto = MarginProp::parse(&[ident("auto"), ws(), ComponentValue::PreservedToken(CssToken::Number(NumericType::Integer(0)))]).unwrap();
    assert_eq!(auto.top, CssValue::Ident("auto".to_string()));
    assert_eq!(auto.right, px(NumericType::Integer(0)));
    assert!(matches!(PaddingProp::parse(&[a(), a(), a(), a(), a()]), Err(Error::CssParse(_))));
    assert!(matches!(PaddingProp::parse(&[]), Err(Error::CssParse(_))));
    assert!(matches!(PaddingProp::parse(&[ident("auto")]), Err(Error::CssParse(_))));
    let block = MarginBlockProp::parse(&[a(), ws(), b()]).unwrap();
    assert_eq!(block, MarginBlockProp { start: px(NumericType::Integer(1)), end: CssValue::Length(NumericType::Integer(2), LengthUnit::RelativeLengthUnit(RelativeLengthUnit::Em)) });
    assert!(matches!(MarginBlockProp::parse(&[a(), a(), a()]), Err(Error::CssParse(_))));
    assert_eq!(MarginProp::default().bottom, px(NumericType::Integer(0)));
}

#[test]
fn width_height_and_radius() {
    assert_eq!(WidthProp::parse(&[ident("auto")]).unwrap().size, CssValue::Ident("auto".to_string()));
    assert_eq!(HeightProp::parse(&[dim(NumericType::Integer(5), "vh")]).unwrap().size, CssValue::Length(NumericType::Integer(5), LengthUnit::RelativeLengthUnit(RelativeLengthUnit::Vh)));
    assert!(matches!(WidthProp::parse(&[ComponentValue::PreservedToken(CssToken::Number(NumericType::Integer(7)))]), Err(Error::CssParse(_))));
    assert_eq!(WidthProp::default().size, CssValue::Ident("auto".to_string()));
    let r = BorderRadiusProp::parse(&[dim(NumericType::Integer(4), "px"), ws(), dim(NumericType::Integer(8), "px")]).unwrap();
    assert_eq!(r.top_left, px(NumericType::Integer(4)));
    assert_eq!(r.top_right, px(NumericType::Integer(8)));
    assert_eq!(r.bottom_right, px(NumericType::Integer(4)));
    assert_eq!(r.bottom_left, px(NumericType::Integer(8)));
}

#[test]
fn border_is_the_default_border() {
    let b = BorderProp::parse(&[ident("solid")]).unwrap();
    assert_eq!(b, BorderProp::default());
    assert_eq!(b.border_color.value, CssValue::Ident("currentColor".to_string()));
    assert_eq!(b.border_style.top, CssValue::Ident("none".to_string()));
    assert_eq!(b.border_width.left, CssValue::Ident("medium".to_string()));
}

#[test]
fn font_family_names_and_strings() {
    let values = vec![
        ComponentValue::PreservedToken(CssToken::String("Times New Roman".to_string())),
        ComponentValue::PreservedToken(CssToken::Comma),
        ws(),
        ident("serif"),
    ];
    let f = FontFamilyProp::parse(&values).unwrap();
    assert_eq!(f.family, vec![CssValue::String("Times New Roman".to_string()), CssValue::String("serif".to_string())]);
    let bad = vec![ident("a"), ComponentValue::PreservedToken(CssToken::Comma), ComponentValue::PreservedToken(CssToken::Comma)];
    assert!(matches!(FontFamilyProp::parse(&bad), Err(Error::CssParse(_))));
    assert_eq!(FontFamilyProp::parse(&[]).unwrap().family, vec![]);
    assert_eq!(FontFamilyProp::default().family, vec![CssValue::String("Times New Roman".to_string()), CssValue::Ident("serif".to_string())]);
}

#[test]
fn length_and_percentage_readers() {
    let values = vec![dim(NumericType::Integer(3), "cm"), ComponentValue::PreservedToken(CssToken::Percentage(num("2.5"))), ComponentValue::PreservedToken(CssToken::Number(NumericType::Integer(0))), ident("x")];
    assert_eq!(parse_length_type(&values, 0).unwrap(), CssValue::Length(NumericType::Integer(3), LengthUnit::AbsoluteLengthUnit(AbsoluteLengthUnit::Cm)));
    assert!(matches!(parse_length_type(&values, 1), Err(Error::CssParse(_))));
    assert_eq!(parse_length_type(&values, 2).unwrap(), px(NumericType::Integer(0)));
    assert_eq!(parse_percentage_type(&values, 1).unwrap(), CssValue::Percentage(num("2.5")));
    assert!(matches!(parse_percentage_type(&values, 0), Err(Error::CssParse(_))));
    assert!(matches!(parse_percentage_type(&values, 9), Err(Error::CssParse(_))));
    assert_eq!(parse_length_percentage_type(&values, 1).unwrap(), CssValue::Percentage(num("2.5")));
    assert!(matches!(parse_length_percentage_type(&values, 3), Err(Error::CssParse(_))));
    assert!(matches!(parse_length_percentage_type(&values, 4), Err(Error::CssParse(_))));
}

#[test]
fn test_parse_font_size() {
    let value = vec![ident("small")];
    assert_eq!(parse_font_size(&value).unwrap(), FontSizeProp { size: CssValue::AbsoluteSize(AbsoluteSize::Small) });
    let value = vec![ident("medium")];
    assert_eq!(parse_font_size(&value).unwrap(), FontSizeProp { size: CssValue::AbsoluteSize(AbsoluteSize::Medium) });
    let value = vec![ident("large")];
    assert_eq!(parse_font_size(&value).unwrap(), FontSizeProp { size: CssValue::AbsoluteSize(AbsoluteSize::Large) });
    let value = vec![ident("larger")];
    assert_eq!(parse_font_size(&value).unwrap(), FontSizeProp { size: CssValue::RelativeSize(RelativeSize::Larger) });
    let value = vec![ident("smaller")];
    assert_eq!(parse_font_size(&value).unwrap(), FontSizeProp { size: CssValue::RelativeSize(RelativeSize::Smaller) });
    let value = vec![dim(num("12.0"), "px")];
    assert_eq!(parse_font_size(&value).unwrap(), FontSizeProp { size: px(num("12.0")) });
    let value = vec![dim(num("1.5"), "em")];
    assert_eq!(
        parse_font_size(&value).unwrap(),
        FontSizeProp { size: CssValue::Length(num("1.5"), LengthUnit::RelativeLengthUnit(RelativeLengthUnit::Em)) }
    );
    let value = vec![ComponentValue::PreservedToken(CssToken::Percentage(num("50.0")))];
    assert_eq!(parse_font_size(&value).unwrap(), FontSizeProp { size: CssValue::Percentage(num("50.0")) });
}

#[test]
fn padding_and_width_free_readers() {
    let p = parse_padding(&[dim(NumericType::Integer(1), "px"), ws(), dim(NumericType::Integer(2), "px")]).unwrap();
    assert_eq!(p.bottom, px(NumericType::Integer(1)));
    assert_eq!(p.left, px(NumericType::Integer(2)));
    assert_eq!(parse_width(&[ident("auto")]).unwrap().size, CssValue::Ident("auto".to_string()));
}

#[test]
fn parse_line() {
    let values = vec![ident("underline"), ws(), ident("overline"), ws(), ident("line-through")];
    assert_eq!(
        parse_text_decoration_line(&values).unwrap(),
        vec![
            CssValue::Ident("underline".to_string()),
            CssValue::Ident("overline".to_string()),
            CssValue::Ident("line-through".to_string())
        ]
    );
}

#[test]
fn parse_style() {
    let values = vec![ident("dotted")];
    assert_eq!(parse_text_decoration_style(&values).unwrap(), CssValue::Ident("dotted".to_string()));
}

#[test]
fn text_decoration_line_edges() {
    // `none` stands alone, after any whitespace.
    assert_eq!(
        parse_text_decoration_line(&[ws(), ident("none"), ws(), ident("underline")]).unwrap(),
        vec![CssValue::Ident("none".to_string())]
    );
    // A line repeated ends the list; an ident that is no line after a line too.
    assert_eq!(
        parse_text_decoration_line(&[ident("overline"), ws(), ident("overline")]).unwrap(),
        vec![CssValue::Ident("overline".to_string())]
    );
    assert_eq!(
        parse_text_decoration_line(&[ident("line-through"), ws(), ident("red")]).unwrap(),
        vec![CssValue::Ident("line-through".to_string())]
    );
    // An ident that is no line, before any line, is refused.
    assert!(matches!(parse_text_decoration_line(&[ident("blink")]), Err(Error::CssParse(_))));
    // A value that is no ident ends the list, even the first.
    assert_eq!(parse_text_decoration_line(&[ComponentValue::PreservedToken(CssToken::Comma)]).unwrap(), vec![]);
    assert_eq!(parse_text_decoration_line(&[]).unwrap(), vec![]);
}

#[test]
fn text_decoration_style_edges() {
    assert_eq!(parse_text_decoration_style(&[ws(), ident("wavy")]).unwrap(), CssValue::Ident("wavy".to_string()));
    assert!(matches!(parse_text_decoration_style(&[ident("bold")]), Err(Error::CssParse(_))));
    assert!(matches!(parse_text_decoration_style(&[ws()]), Err(Error::CssParse(_))));
    assert!(matches!(parse_text_decoration_style(&[]), Err(Error::CssParse(_))));
}
