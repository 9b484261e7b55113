use pentas::css::cssom::{ComponentValue, Declaration, QualifiedRule, Rule};
use pentas::css::parser::parse;
use pentas::css::selector::{Combinator, Selector, SelectorParser, SimpleSelector};
use pentas::css::token::{CssToken, CssTokenizer, NumericType};
use pentas::error::Error;

fn tokenize(css: &str) -> Vec<CssToken> {
    CssTokenizer::new(css).tokenize().unwrap()
}

#[test]
fn parse_simple_style() {
    let css = r#"
            h1 {
                color: red;
                grid-template-columns: 1fr 2fr;
            }
            h2 {
                color: blue;
            }
        "#;
    let style_sheet = parse(&tokenize(css)).unwrap();
    let mut rules = style_sheet.rules.iter();
    assert_eq!(
        rules.next().unwrap(),
        &Rule::QualifiedRule(QualifiedRule {
            selectors: vec![Selector::Simple(vec![SimpleSelector::Type {
                namespace_prefix: None,
                name: "h1".to_string()
            }])],
            declarations: vec![
                Declaration {
                    name: "color".to_string(),
                    value: vec![ComponentValue::PreservedToken(CssToken::Ident("red".to_string()))],
                },
                Declaration {
                    name: "grid-template-columns".to_string(),
                    value: vec![
                        ComponentValue::PreservedToken(CssToken::Dimension(
                            NumericType::Integer(1),
                            "fr".to_string()
                        )),
                        ComponentValue::PreservedToken(CssToken::Whitespace),
                        ComponentValue::PreservedToken(CssToken::Dimension(
                            NumericType::Integer(2),
                            "fr".to_string()
                        )),
                    ],
                },
            ],
        })
    );
}

#[test]
fn parse_simple_style_with_complex_selector() {
    let css = r#"
            h1, h2, h3 {
                color: red;
            }
            #myId > .myClass + div > h1[title="hello"] {
                color: blue;
                font-size: 16px;
            }
        "#;
    let style_sheet = parse(&tokenize(css)).unwrap();
    let mut rules = style_sheet.rules.iter();
    assert_eq!(
        rules.next().unwrap(),
        &Rule::QualifiedRule(QualifiedRule {
            selectors: vec![
                Selector::Simple(vec![SimpleSelector::Type {
                    namespace_prefix: None,
                    name: "h1".to_string()
                }]),
                Selector::Simple(vec![SimpleSelector::Type {
                    namespace_prefix: None,
                    name: "h2".to_string()
                }]),
                Selector::Simple(vec![SimpleSelector::Type {
                    namespace_prefix: None,
                    name: "h3".to_string()
                }]),
            ],
            declarations: vec![Declaration {
                name: "color".to_string(),
                value: vec![ComponentValue::PreservedToken(CssToken::Ident("red".to_string()))],
            }],
        })
    );
    assert_eq!(
        rules.next().unwrap(),
        &Rule::QualifiedRule(QualifiedRule {
            selectors: vec![Selector::Complex(
                Box::new(Selector::Simple(vec![SimpleSelector::Id("myId".to_string()),])),
                Combinator::GreaterThan,
                Box::new(Selector::Complex(
                    Box::new(Selector::Simple(vec![SimpleSelector::Class("myClass".to_string()),])),
                    Combinator::Plus,
                    Box::new(Selector::Complex(
                        Box::new(Selector::Simple(vec![SimpleSelector::Type {
                            namespace_prefix: None,
                            name: "div".to_string()
                        },])),
                        Combinator::GreaterThan,
                        Box::new(Selector::Simple(vec![
                            SimpleSelector::Type { namespace_prefix: None, name: "h1".to_string() },
                            SimpleSelector::Attribute {
                                namespace_prefix: None,
                                name: "title".to_string(),
                                op: Some("=".to_string()),
                                value: Some("hello".to_string()),
                            },
                        ]))
                    ))
                ))
            )],
            declarations: vec![
                Declaration {
                    name: "color".to_string(),
                    value: vec![ComponentValue::PreservedToken(CssToken::Ident("blue".to_string()))],
                },
                Declaration {
                    name: "font-size".to_string(),
                    value: vec![ComponentValue::PreservedToken(CssToken::Dimension(
                        NumericType::Integer(16),
                        "px".to_string()
                    ))],
                },
            ],
        })
    );
}

#[test]
fn invalid_selector_is_an_error() {
    assert_eq!(parse(&tokenize("h1 + { color: red; }")).err(), Some(Error::InvalidSelector));
}

#[test]
fn declaration_without_colon_is_dropped() {
    let sheet = parse(&tokenize("p { color red; margin: 0; }")).unwrap();
    match &sheet.rules[0] {
        Rule::QualifiedRule(r) => {
            assert_eq!(r.declarations.len(), 1);
            assert_eq!(r.declarations[0].name, "margin");
        }
        other => panic!("unexpected rule {:?}", other),
    }
}

#[test]
fn function_values_are_grouped() {
    let sheet = parse(&tokenize("p { color: rgb(1, 2, 3); }")).unwrap();
    match &sheet.rules[0] {
        Rule::QualifiedRule(r) => assert_eq!(
            r.declarations[0].value,
            vec![ComponentValue::Function {
                name: "rgb".to_string(),
                values: vec![
                    ComponentValue::PreservedToken(CssToken::Number(NumericType::Integer(1))),
                    ComponentValue::PreservedToken(CssToken::Comma),
                    ComponentValue::PreservedToken(CssToken::Whitespace),
                    ComponentValue::PreservedToken(CssToken::Number(NumericType::Integer(2))),
                    ComponentValue::PreservedToken(CssToken::Comma),
                    ComponentValue::PreservedToken(CssToken::Whitespace),
                    ComponentValue::PreservedToken(CssToken::Number(NumericType::Integer(3))),
                ],
            }]
        ),
        other => panic!("unexpected rule {:?}", other),
    }
}

fn pt(t: CssToken) -> ComponentValue {
    ComponentValue::PreservedToken(t)
}

fn ident(s: &str) -> ComponentValue {
    pt(CssToken::Ident(s.to_string()))
}

#[test]
fn parse_selector_with_combinator() {
    // div > p
    let input = vec![
        ident("div"),
        pt(CssToken::Whitespace),
        pt(CssToken::Delim('>')),
        pt(CssToken::Whitespace),
        ident("p"),
    ];

    assert_eq!(
        SelectorParser::new(input).parse().unwrap(),
        vec![Selector::Complex(
            Box::new(Selector::Simple(vec![SimpleSelector::Type {
                namespace_prefix: None,
                name: "div".to_string(),
            }])),
            Combinator::GreaterThan,
            Box::new(Selector::Simple(vec![SimpleSelector::Type {
                namespace_prefix: None,
                name: "p".to_string(),
            }]))
        )]
    );
}

#[test]
fn parse_selectors_with_comma() {
    // div > p, a + b
    let input = vec![
        ident("div"),
        pt(CssToken::Whitespace),
        pt(CssToken::Delim('>')),
        pt(CssToken::Whitespace),
        ident("p"),
        pt(CssToken::Comma),
        pt(CssToken::Whitespace),
        ident("a"),
        pt(CssToken::Whitespace),
        pt(CssToken::Delim('+')),
        pt(CssToken::Whitespace),
        ident("b"),
    ];
    assert_eq!(
        SelectorParser::new(input).parse().unwrap(),
        vec![
            Selector::Complex(
                Box::new(Selector::Simple(vec![SimpleSelector::Type {
                    namespace_prefix: None,
                    name: "div".to_string(),
                }])),
                Combinator::GreaterThan,
                Box::new(Selector::Simple(vec![SimpleSelector::Type {
                    namespace_prefix: None,
                    name: "p".to_string(),
                }]))
            ),
            Selector::Complex(
                Box::new(Selector::Simple(vec![SimpleSelector::Type {
                    namespace_prefix: None,
                    name: "a".to_string(),
                }])),
                Combinator::Plus,
                Box::new(Selector::Simple(vec![SimpleSelector::Type {
                    namespace_prefix: None,
                    name: "b".to_string(),
                }]))
            )
        ]
    );
}

#[test]
fn parse_complex_selectors() {
    // h1[title="hello"] > .myclass + p, example|*, *, *|*, *|example
    let input = vec![
        ident("h1"),
        ComponentValue::SimpleBlock {
            associated_token: CssToken::OpenSquareBracket,
            values: vec![
                ident("title"),
                pt(CssToken::Delim('=')),
                pt(CssToken::String("hello".to_string())),
            ],
        },
        pt(CssToken::Whitespace),
        pt(CssToken::Delim('>')),
        pt(CssToken::Whitespace),
        pt(CssToken::Delim('.')),
        ident("myclass"),
        pt(CssToken::Whitespace),
        pt(CssToken::Delim('+')),
        pt(CssToken::Whitespace),
        ident("p"),
        pt(CssToken::Comma),
        pt(CssToken::Whitespace),
        ident("example"),
        pt(CssToken::Delim('|')),
        pt(CssToken::Delim('*')),
        pt(CssToken::Comma),
        pt(CssToken::Whitespace),
        pt(CssToken::Delim('*')),
        pt(CssToken::Comma),
        pt(CssToken::Whitespace),
        pt(CssToken::Delim('*')),
        pt(CssToken::Delim('|')),
        pt(CssToken::Delim('*')),
        pt(CssToken::Comma),
        pt(CssToken::Whitespace),
        pt(CssToken::Delim('*')),
        pt(CssToken::Delim('|')),
        ident("example"),
    ];
    assert_eq!(
        SelectorParser::new(input).parse().unwrap(),
        vec![
            Selector::Complex(
                Box::new(Selector::Simple(vec![
                    SimpleSelector::Type { namespace_prefix: None, name: "h1".to_string() },
                    SimpleSelector::Attribute {
                        namespace_prefix: None,
                        name: "title".to_string(),
                        op: Some("=".to_string()),
                        value: Some("hello".to_string()),
                    },
                ]),),
                Combinator::GreaterThan,
                Box::new(Selector::Complex(
                    Box::new(Selector::Simple(vec![SimpleSelector::Class("myclass".to_string())])),
                    Combinator::Plus,
                    Box::new(Selector::Simple(vec![SimpleSelector::Type {
                        namespace_prefix: None,
                        name: "p".to_string(),
                    }]))
                ))
            ),
            Selector::Simple(vec![SimpleSelector::Universal(Some("example".to_string()))]),
            Selector::Simple(vec![SimpleSelector::Universal(None)]),
            Selector::Simple(vec![SimpleSelector::Universal(Some("*".to_string()))]),
            Selector::Simple(vec![SimpleSelector::Type {
                namespace_prefix: Some("*".to_string()),
                name: "example".to_string(),
            }]),
        ]
    );
}

#[test]
fn parse_selector_with_square_bracket() {
    // a[href^="https"][href$=".org"]
    let input = vec![
        ident("a"),
        ComponentValue::SimpleBlock {
            associated_token: CssToken::OpenSquareBracket,
            values: vec![
                ident("href"),
                pt(CssToken::Delim('^')),
                pt(CssToken::Delim('=')),
                pt(CssToken::String("https".to_string())),
            ],
        },
        ComponentValue::SimpleBlock {
            associated_token: CssToken::OpenSquareBracket,
            values: vec![
                ident("href"),
                pt(CssToken::Delim('$')),
                pt(CssToken::Delim('=')),
                pt(CssToken::String(".org".to_string())),
            ],
        },
    ];
    assert_eq!(
        SelectorParser::new(input).parse().unwrap(),
        vec![Selector::Simple(vec![
            SimpleSelector::Type { namespace_prefix: None, name: "a".to_string() },
            SimpleSelector::Attribute {
                namespace_prefix: None,
                name: "href".to_string(),
                op: Some("^=".to_string()),
                value: Some("https".to_string()),
            },
            SimpleSelector::Attribute {
                namespace_prefix: None,
                name: "href".to_string(),
                op: Some("$=".to_string()),
                value: Some(".org".to_string()),
            },
        ])]
    );
}

#[test]
fn parse_selector_linked_by_dots() {
    // p.class1.class2.class3
    let input = vec![
        ident("p"),
        pt(CssToken::Delim('.')),
        ident("class1"),
        pt(CssToken::Delim('.')),
        ident("class2"),
        pt(CssToken::Delim('.')),
        ident("class3"),
    ];
    assert_eq!(
        SelectorParser::new(input).parse().unwrap(),
        vec![Selector::Simple(vec![
            SimpleSelector::Type { namespace_prefix: None, name: "p".to_string() },
            SimpleSelector::Class("class1".to_string()),
            SimpleSelector::Class("class2".to_string()),
            SimpleSelector::Class("class3".to_string()),
        ])]
    );
}

#[test]
fn selector_errors() {
    assert_eq!(SelectorParser::new(vec![]).parse(), Err(Error::InvalidSelector));
    // trailing whitespace needs a following sequence
    assert_eq!(
        SelectorParser::new(vec![ident("a"), pt(CssToken::Whitespace)]).parse(),
        Err(Error::InvalidSelector)
    );
    // pseudo-classes
    assert_eq!(
        SelectorParser::new(vec![ident("a"), pt(CssToken::Colon), ident("link")]).parse().unwrap(),
        vec![Selector::Simple(vec![
            SimpleSelector::Type { namespace_prefix: None, name: "a".to_string() },
            SimpleSelector::PseudoClass("link".to_string()),
        ])]
    );
}
