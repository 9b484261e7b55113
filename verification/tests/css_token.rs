use pentas::css::token::{CssToken, CssTokenizer, HashType, NumericType};
use pentas::error::Error;

#[test]
fn consume_valid_comment() {
    let css = "/* hello, world! */";
    assert_eq!(CssTokenizer::new(css).tokenize().unwrap(), vec![CssToken::Eof]);

    let css = "/* hello, world! *//* Hello, World! */";
    assert_eq!(CssTokenizer::new(css).tokenize().unwrap(), vec![CssToken::Eof]);
}

#[test]
#[should_panic]
fn consume_invalid_comment() {
    let css = "/* hello, world!";
    assert_eq!(CssTokenizer::new(css).tokenize().unwrap(), vec![CssToken::Eof]);
}

#[test]
fn tokenize_number_with_whitespace() {
    let css = "12345 67890";
    assert_eq!(
        CssTokenizer::new(css).tokenize().unwrap(),
        vec![
            CssToken::Number(NumericType::Integer(12345)),
            CssToken::Whitespace,
            CssToken::Number(NumericType::Integer(67890)),
            CssToken::Eof
        ]
    );
}

#[test]
fn tokenize_hash() {
    let css = "#12345";
    assert_eq!(
        CssTokenizer::new(css).tokenize().unwrap(),
        vec![CssToken::Hash("12345".to_string(), HashType::Unrestricted), CssToken::Eof]
    )
}

#[test]
fn tokenize_number_with_dot() {
    let css = "12345.67890";
    let tokens = CssTokenizer::new(css).tokenize().unwrap();
    assert_eq!(tokens.len(), 2);
    match &tokens[0] {
        CssToken::Number(NumericType::Number(repr)) => {
            assert_eq!(repr.parse::<f32>().unwrap(), 12345.67890)
        }
        other => panic!("expected a number, found {:?}", other),
    }
    assert_eq!(tokens[1], CssToken::Eof);
}

#[test]
fn tokenize_simple_style() {
    // https://developer.mozilla.org/en-US/docs/Learn/CSS/First_steps/Styling_a_biography_page
    let css = r#"h1 {
            color: #375e97;
            font-size: 2em;
            font-family: Georgia, 'Times New Roman', Times, serif;
            border-bottom: 1px solid #375e97;
          }"#;

    assert_eq!(
        CssTokenizer::new(css).tokenize().unwrap(),
        vec![
            CssToken::Ident("h1".to_string()),
            CssToken::Whitespace,
            CssToken::OpenCurlyBrace,
            CssToken::Whitespace,
            CssToken::Ident("color".to_string()),
            CssToken::Colon,
            CssToken::Whitespace,
            CssToken::Hash("375e97".to_string(), HashType::Unrestricted),
            CssToken::Semicolon,
            CssToken::Whitespace,
            CssToken::Ident("font-size".to_string()),
            CssToken::Colon,
            CssToken::Whitespace,
            CssToken::Dimension(NumericType::Integer(2), "em".to_string()),
            CssToken::Semicolon,
            CssToken::Whitespace,
            CssToken::Ident("font-family".to_string()),
            CssToken::Colon,
            CssToken::Whitespace,
            CssToken::Ident("Georgia".to_string()),
            CssToken::Comma,
            CssToken::Whitespace,
            CssToken::String("Times New Roman".to_string()),
            CssToken::Comma,
            CssToken::Whitespace,
            CssToken::Ident("Times".to_string()),
            CssToken::Comma,
            CssToken::Whitespace,
            CssToken::Ident("serif".to_string()),
            CssToken::Semicolon,
            CssToken::Whitespace,
            CssToken::Ident("border-bottom".to_string()),
            CssToken::Colon,
            CssToken::Whitespace,
            CssToken::Dimension(NumericType::Integer(1), "px".to_string()),
            CssToken::Whitespace,
            CssToken::Ident("solid".to_string()),
            CssToken::Whitespace,
            CssToken::Hash("375e97".to_string(), HashType::Unrestricted),
            CssToken::Semicolon,
            CssToken::Whitespace,
            CssToken::CloseCurlyBrace,
            CssToken::Eof,
        ]
    )
}

#[test]
fn tokenize_simple_style_with_complex_selector() {
    let css = r#"a[href^="https"][href$=".org"] {
            color: green;
        }"#;

    assert_eq!(
        CssTokenizer::new(css).tokenize().unwrap(),
        vec![
            CssToken::Ident("a".to_string()),
            CssToken::OpenSquareBracket,
            CssToken::Ident("href".to_string()),
            CssToken::Delim('^'),
            CssToken::Delim('='),
            CssToken::String("https".to_string()),
            CssToken::CloseSquareBracket,
            CssToken::OpenSquareBracket,
            CssToken::Ident("href".to_string()),
            CssToken::Delim('$'),
            CssToken::Delim('='),
            CssToken::String(".org".to_string()),
            CssToken::CloseSquareBracket,
            CssToken::Whitespace,
            CssToken::OpenCurlyBrace,
            CssToken::Whitespace,
            CssToken::Ident("color".to_string()),
            CssToken::Colon,
            CssToken::Whitespace,
            CssToken::Ident("green".to_string()),
            CssToken::Semicolon,
            CssToken::Whitespace,
            CssToken::CloseCurlyBrace,
            CssToken::Eof,
        ]
    )
}

#[test]
fn unterminated_comment_is_an_error() {
    assert_eq!(CssTokenizer::new("a /* b").tokenize(), Err(Error::UnterminatedComment));
}

#[test]
fn tokenize_numbers_and_units() {
    assert_eq!(
        CssTokenizer::new("50% -3 +4px 1e3").tokenize().unwrap()[..3],
        [
            CssToken::Percentage(NumericType::Integer(50)),
            CssToken::Whitespace,
            CssToken::Number(NumericType::Integer(-3)),
        ]
    );
    let tokens = CssTokenizer::new("+4px 1e3").tokenize().unwrap();
    assert_eq!(tokens[0], CssToken::Dimension(NumericType::Integer(4), "px".to_string()));
    assert_eq!(tokens[2], CssToken::Number(NumericType::Number("1e3".to_string())));
}

#[test]
fn tokenize_markup_and_at_keywords() {
    assert_eq!(
        CssTokenizer::new("<!-- @media -->").tokenize().unwrap(),
        vec![
            CssToken::Cdo,
            CssToken::Whitespace,
            CssToken::AtKeyword("media".to_string()),
            CssToken::Whitespace,
            CssToken::Cdc,
            CssToken::Eof
        ]
    );
}

#[test]
fn tokenize_urls_and_functions() {
    assert_eq!(
        CssTokenizer::new("url( a.png ) url(\"b\") rgb(").tokenize().unwrap(),
        vec![
            CssToken::Url("a.png".to_string()),
            CssToken::Whitespace,
            CssToken::Function("url".to_string()),
            CssToken::String("b".to_string()),
            CssToken::CloseParenthesis,
            CssToken::Whitespace,
            CssToken::Function("rgb".to_string()),
            CssToken::Eof
        ]
    );
    assert_eq!(
        CssTokenizer::new("url(a b)").tokenize().unwrap(),
        vec![CssToken::BadUrl, CssToken::Eof]
    );
}

#[test]
fn tokenize_strings_and_hashes() {
    assert_eq!(
        CssTokenizer::new("'a\\'b' \"x\ny\" #id").tokenize().unwrap(),
        vec![
            CssToken::String("a'b".to_string()),
            CssToken::Whitespace,
            CssToken::BadString,
            CssToken::Whitespace,
            CssToken::Ident("y".to_string()),
            CssToken::String(" #id".to_string()),
            CssToken::Eof
        ]
    );
    assert_eq!(
        CssTokenizer::new("#id").tokenize().unwrap(),
        vec![CssToken::Hash("id".to_string(), HashType::Id), CssToken::Eof]
    );
}

#[test]
fn comment_closer_comes_after_the_opener() {
    assert_eq!(CssTokenizer::new("/*/").tokenize(), Err(Error::UnterminatedComment));
    assert_eq!(CssTokenizer::new("/**/a").tokenize().unwrap(), vec![CssToken::Ident("a".to_string()), CssToken::Eof]);
}

#[test]
fn dot_before_a_digit_starts_a_number() {
    assert_eq!(
        CssTokenizer::new(".5").tokenize().unwrap(),
        vec![CssToken::Number(NumericType::Number(".5".to_string())), CssToken::Eof]
    );
    assert_eq!(
        CssTokenizer::new(".a").tokenize().unwrap(),
        vec![CssToken::Delim('.'), CssToken::Ident("a".to_string()), CssToken::Eof]
    );
}
